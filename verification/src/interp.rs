//! Interpolation of environment variables (`$NAME`, `${NAME}`, `$$`, `$0`)
//! and of the home directory (`~` at the start of a word or after `=` or `:`).
use vstd::prelude::*;
use crate::text::push_char;
use crate::strmap::StrMap;

verus! {

/// The states of the interpolation scanner.
#[derive(Clone, Copy, Debug, PartialEq, Eq, Structural)]
pub enum EnvExpState {
    TildeCan,
    InArg,
    ExpEnvName,
    InBracketEnvName,
    InEnvName,
    Esc,
    NoInterpol,
    EscNoInterpol,
}

/// The name `$0` stands for where the environment does not define it.
pub open spec fn terminal_name() -> Seq<char> {
    "sim/terminal"@
}

/// The value a variable name expands to: its value in the environment,
/// else the terminal's name for `0`, else nothing.
pub open spec fn var_value(env: Map<Seq<char>, Seq<char>>, name: Seq<char>) -> Seq<char> {
    if env.contains_key(name) {
        env[name]
    } else if name == seq!['0'] {
        terminal_name()
    } else {
        Seq::empty()
    }
}

/// The characters that may form a variable name after `$`.
pub open spec fn is_name_char(c: char) -> bool {
    ('a' <= c <= 'z') || ('A' <= c <= 'Z') || c == '_' || ('0' <= c <= '9')
}

/// The scanner state: the state, the text produced, the variable name read.
pub type InterpScan = (EnvExpState, Seq<char>, Seq<char>);

/// One step of the interpolation scanner, with `env` the environment,
/// `pid` the text of the process id and `home` the home directory (empty
/// where there is none).
pub open spec fn interp_step(
    env: Map<Seq<char>, Seq<char>>,
    pid: Seq<char>,
    home: Seq<char>,
    st: InterpScan,
    c: char,
) -> InterpScan {
    let (s, res, cur) = st;
    let flushed = res + var_value(env, cur);
    if c == '$' {
        match s {
            EnvExpState::InArg | EnvExpState::TildeCan => (EnvExpState::ExpEnvName, res, cur),
            EnvExpState::Esc => (EnvExpState::InArg, res.push(c), cur),
            EnvExpState::InEnvName => (EnvExpState::ExpEnvName, flushed, Seq::empty()),
            EnvExpState::ExpEnvName => (EnvExpState::InArg, res + pid, cur),
            EnvExpState::InBracketEnvName => (s, res, cur.push(c)),
            EnvExpState::NoInterpol => (s, res.push(c), cur),
            EnvExpState::EscNoInterpol => (EnvExpState::NoInterpol, res.push('\\').push(c), cur),
        }
    } else if c == '\\' {
        match s {
            EnvExpState::InArg | EnvExpState::TildeCan => (EnvExpState::Esc, res, cur),
            EnvExpState::Esc => (EnvExpState::InArg, res.push('\\'), cur),
            EnvExpState::InEnvName | EnvExpState::ExpEnvName => (
                EnvExpState::Esc,
                flushed,
                Seq::empty(),
            ),
            EnvExpState::InBracketEnvName => (s, res, cur.push(c)),
            EnvExpState::NoInterpol => (EnvExpState::EscNoInterpol, res, cur),
            EnvExpState::EscNoInterpol => (EnvExpState::NoInterpol, res.push(c), cur),
        }
    } else if is_name_char(c) {
        match s {
            EnvExpState::InArg => (s, res.push(c), cur),
            EnvExpState::TildeCan => (EnvExpState::InArg, res.push(c), cur),
            EnvExpState::Esc => (EnvExpState::InArg, res.push('\\').push(c), cur),
            EnvExpState::InEnvName | EnvExpState::InBracketEnvName => (s, res, cur.push(c)),
            EnvExpState::ExpEnvName => (EnvExpState::InEnvName, res, cur.push(c)),
            EnvExpState::NoInterpol => (s, res.push(c), cur),
            EnvExpState::EscNoInterpol => (EnvExpState::NoInterpol, res.push('\\').push(c), cur),
        }
    } else if c == '~' {
        match s {
            EnvExpState::TildeCan => (EnvExpState::InArg, res + home, cur),
            EnvExpState::InArg => (s, res.push(c), cur),
            EnvExpState::Esc => (EnvExpState::InArg, res.push(c), cur),
            EnvExpState::InEnvName => (EnvExpState::InArg, flushed + home, Seq::empty()),
            EnvExpState::ExpEnvName => (EnvExpState::InArg, res.push('$').push(c), cur),
            EnvExpState::InBracketEnvName => (s, res, cur.push(c)),
            EnvExpState::NoInterpol => (s, res.push(c), cur),
            EnvExpState::EscNoInterpol => (EnvExpState::NoInterpol, res.push('\\').push(c), cur),
        }
    } else if c == '{' {
        match s {
            EnvExpState::InArg => (s, res.push(c), cur),
            EnvExpState::TildeCan => (EnvExpState::InArg, res.push(c), cur),
            EnvExpState::Esc => (EnvExpState::InArg, res.push('\\').push(c), cur),
            EnvExpState::InEnvName => (EnvExpState::InArg, flushed.push(c), Seq::empty()),
            EnvExpState::ExpEnvName => (EnvExpState::InBracketEnvName, res, cur),
            EnvExpState::InBracketEnvName => (s, res, cur.push(c)),
            EnvExpState::NoInterpol => (s, res.push(c), cur),
            EnvExpState::EscNoInterpol => (EnvExpState::NoInterpol, res.push('\\').push(c), cur),
        }
    } else if c == '}' {
        match s {
            EnvExpState::InArg | EnvExpState::NoInterpol => (s, res.push(c), cur),
            EnvExpState::TildeCan | EnvExpState::ExpEnvName => (EnvExpState::InArg, res.push(c), cur),
            EnvExpState::Esc => (EnvExpState::InArg, res.push('\\').push(c), cur),
            EnvExpState::InEnvName => (EnvExpState::InArg, flushed.push(c), Seq::empty()),
            EnvExpState::InBracketEnvName => (EnvExpState::InArg, flushed, Seq::empty()),
            EnvExpState::EscNoInterpol => (EnvExpState::NoInterpol, res.push('\\').push(c), cur),
        }
    } else if c == '=' || c == ':' {
        match s {
            EnvExpState::NoInterpol => (s, res.push(c), cur),
            EnvExpState::InArg => (EnvExpState::TildeCan, res.push(c), cur),
            EnvExpState::TildeCan => (EnvExpState::InArg, res.push(c), cur),
            EnvExpState::Esc => (EnvExpState::InArg, res.push('\\').push(c), cur),
            EnvExpState::EscNoInterpol => (EnvExpState::NoInterpol, res.push('\\').push(c), cur),
            EnvExpState::InEnvName | EnvExpState::ExpEnvName => (
                EnvExpState::InArg,
                flushed.push(c),
                Seq::empty(),
            ),
            EnvExpState::InBracketEnvName => (s, res, cur.push(c)),
        }
    } else {
        match s {
            EnvExpState::InArg | EnvExpState::NoInterpol => (s, res.push(c), cur),
            EnvExpState::TildeCan => (EnvExpState::InArg, res.push(c), cur),
            EnvExpState::Esc => (EnvExpState::InArg, res.push('\\').push(c), cur),
            EnvExpState::EscNoInterpol => (EnvExpState::NoInterpol, res.push('\\').push(c), cur),
            EnvExpState::InEnvName | EnvExpState::ExpEnvName => (
                EnvExpState::InArg,
                flushed.push(c),
                Seq::empty(),
            ),
            EnvExpState::InBracketEnvName => (s, res, cur.push(c)),
        }
    }
}

/// The interpolation scan after reading `s`.
pub open spec fn interp_scan(
    env: Map<Seq<char>, Seq<char>>,
    pid: Seq<char>,
    home: Seq<char>,
    s: Seq<char>,
) -> InterpScan
    decreases s.len(),
{
    if s.len() == 0 {
        (EnvExpState::TildeCan, Seq::empty(), Seq::empty())
    } else {
        interp_step(env, pid, home, interp_scan(env, pid, home, s.drop_last()), s.last())
    }
}

/// The text produced once the input ends in scan state `st`: a pending
/// backslash or `$` is kept, a variable name being read is expanded, an
/// unclosed `${` is dropped.
pub open spec fn interp_finish(env: Map<Seq<char>, Seq<char>>, st: InterpScan) -> Seq<char> {
    let (s, res, cur) = st;
    match s {
        EnvExpState::InArg | EnvExpState::InBracketEnvName | EnvExpState::NoInterpol
        | EnvExpState::TildeCan => res,
        EnvExpState::Esc | EnvExpState::EscNoInterpol => res.push('\\'),
        EnvExpState::ExpEnvName => res.push('$'),
        EnvExpState::InEnvName => res + var_value(env, cur),
    }
}

/// The interpolation of `s`.
pub open spec fn spec_interpolate(
    env: Map<Seq<char>, Seq<char>>,
    pid: Seq<char>,
    home: Seq<char>,
    s: Seq<char>,
) -> Seq<char> {
    interp_finish(env, interp_scan(env, pid, home, s))
}

/// The home directory as text, empty where there is none.
pub open spec fn home_text(home: Option<String>) -> Seq<char> {
    match home {
        Some(h) => h@,
        None => Seq::empty(),
    }
}

/// Appends the value of the variable `name`.
fn append_var(res: &mut String, env: &StrMap<String>, name: &String)
    ensures
        final(res)@ == old(res)@ + var_value(env@, name@),
{
    match env.get(name.as_str()) {
        Some(v) => res.append(v.as_str()),
        None => {
            if crate::text::text_is(name, "0") {
                res.append("sim/terminal");
            } else {
                assert(old(res)@ + Seq::<char>::empty() == old(res)@);
            }
        },
    }
    proof {
        reveal_strlit("0");
        if name@ == "0"@ {
            assert(name@ == seq!['0']);
        }
        if name@ == seq!['0'] {
            assert(name@ == "0"@);
        }
    }
}

fn is_name_char_exec(c: char) -> (r: bool)
    ensures
        r == is_name_char(c),
{
    ('a' <= c && c <= 'z') || ('A' <= c && c <= 'Z') || c == '_' || ('0' <= c && c <= '9')
}

fn append_home(res: &mut String, home: &Option<String>)
    ensures
        final(res)@ == old(res)@ + home_text(*home),
{
    match home {
        Some(h) => res.append(h.as_str()),
        None => {
            assert(old(res)@ + Seq::<char>::empty() == old(res)@);
        },
    }
}

/// One step of the interpolation scanner.
#[verifier::rlimit(50)]
fn interp_step_exec(
    state: &mut EnvExpState,
    res: &mut String,
    cur: &mut String,
    c: char,
    env: &StrMap<String>,
    pid: &str,
    home: &Option<String>,
)
    ensures
        (*final(state), final(res)@, final(cur)@) == interp_step(
            env@,
            pid@,
            home_text(*home),
            (*old(state), old(res)@, old(cur)@),
            c,
        ),
{
    let s = *state;
    if c == '$' {
        match s {
            EnvExpState::InArg | EnvExpState::TildeCan => *state = EnvExpState::ExpEnvName,
            EnvExpState::Esc => {
                *state = EnvExpState::InArg;
                push_char(res, c);
            },
            EnvExpState::InEnvName => {
                append_var(res, env, cur);
                *cur = String::new();
                *state = EnvExpState::ExpEnvName;
            },
            EnvExpState::ExpEnvName => {
                res.append(pid);
                *state = EnvExpState::InArg;
            },
            EnvExpState::InBracketEnvName => push_char(cur, c),
            EnvExpState::NoInterpol => push_char(res, c),
            EnvExpState::EscNoInterpol => {
                push_char(res, '\\');
                push_char(res, c);
                *state = EnvExpState::NoInterpol;
            },
        }
    } else if c == '\\' {
        match s {
            EnvExpState::InArg | EnvExpState::TildeCan => *state = EnvExpState::Esc,
            EnvExpState::Esc => {
                push_char(res, '\\');
                *state = EnvExpState::InArg;
            },
            EnvExpState::InEnvName | EnvExpState::ExpEnvName => {
                append_var(res, env, cur);
                *cur = String::new();
                *state = EnvExpState::Esc;
            },
            EnvExpState::InBracketEnvName => push_char(cur, c),
            EnvExpState::NoInterpol => *state = EnvExpState::EscNoInterpol,
            EnvExpState::EscNoInterpol => {
                push_char(res, c);
                *state = EnvExpState::NoInterpol;
            },
        }
    } else if is_name_char_exec(c) {
        match s {
            EnvExpState::InArg => push_char(res, c),
            EnvExpState::TildeCan => {
                *state = EnvExpState::InArg;
                push_char(res, c);
            },
            EnvExpState::Esc => {
                push_char(res, '\\');
                push_char(res, c);
                *state = EnvExpState::InArg;
            },
            EnvExpState::InEnvName | EnvExpState::InBracketEnvName => push_char(cur, c),
            EnvExpState::ExpEnvName => {
                push_char(cur, c);
                *state = EnvExpState::InEnvName;
            },
            EnvExpState::NoInterpol => push_char(res, c),
            EnvExpState::EscNoInterpol => {
                push_char(res, '\\');
                push_char(res, c);
                *state = EnvExpState::NoInterpol;
            },
        }
    } else if c == '~' {
        match s {
            EnvExpState::TildeCan => {
                append_home(res, home);
                *state = EnvExpState::InArg;
            },
            EnvExpState::InArg => push_char(res, c),
            EnvExpState::Esc => {
                push_char(res, c);
                *state = EnvExpState::InArg;
            },
            EnvExpState::InEnvName => {
                append_var(res, env, cur);
                *cur = String::new();
                append_home(res, home);
                *state = EnvExpState::InArg;
            },
            EnvExpState::ExpEnvName => {
                push_char(res, '$');
                push_char(res, c);
                *state = EnvExpState::InArg;
            },
            EnvExpState::InBracketEnvName => push_char(cur, c),
            EnvExpState::NoInterpol => push_char(res, c),
            EnvExpState::EscNoInterpol => {
                push_char(res, '\\');
                push_char(res, c);
                *state = EnvExpState::NoInterpol;
            },
        }
    } else if c == '{' {
        match s {
            EnvExpState::InArg => push_char(res, c),
            EnvExpState::TildeCan => {
                *state = EnvExpState::InArg;
                push_char(res, c);
            },
            EnvExpState::Esc => {
                push_char(res, '\\');
                push_char(res, c);
                *state = EnvExpState::InArg;
            },
            EnvExpState::InEnvName => {
                append_var(res, env, cur);
                *cur = String::new();
                push_char(res, c);
                *state = EnvExpState::InArg;
            },
            EnvExpState::ExpEnvName => *state = EnvExpState::InBracketEnvName,
            EnvExpState::InBracketEnvName => push_char(cur, c),
            EnvExpState::NoInterpol => push_char(res, c),
            EnvExpState::EscNoInterpol => {
                push_char(res, '\\');
                push_char(res, c);
                *state = EnvExpState::NoInterpol;
            },
        }
    } else if c == '}' {
        match s {
            EnvExpState::InArg | EnvExpState::NoInterpol => push_char(res, c),
            EnvExpState::TildeCan | EnvExpState::ExpEnvName => {
                *state = EnvExpState::InArg;
                push_char(res, c);
            },
            EnvExpState::Esc => {
                push_char(res, '\\');
                push_char(res, c);
                *state = EnvExpState::InArg;
            },
            EnvExpState::InEnvName => {
                append_var(res, env, cur);
                *cur = String::new();
                push_char(res, c);
                *state = EnvExpState::InArg;
            },
            EnvExpState::InBracketEnvName => {
                append_var(res, env, cur);
                *cur = String::new();
                *state = EnvExpState::InArg;
            },
            EnvExpState::EscNoInterpol => {
                push_char(res, '\\');
                push_char(res, c);
                *state = EnvExpState::NoInterpol;
            },
        }
    } else if c == '=' || c == ':' {
        match s {
            EnvExpState::NoInterpol => push_char(res, c),
            EnvExpState::InArg => {
                *state = EnvExpState::TildeCan;
                push_char(res, c);
            },
            EnvExpState::TildeCan => {
                *state = EnvExpState::InArg;
                push_char(res, c);
            },
            EnvExpState::Esc => {
                push_char(res, '\\');
                push_char(res, c);
                *state = EnvExpState::InArg;
            },
            EnvExpState::EscNoInterpol => {
                push_char(res, '\\');
                push_char(res, c);
                *state = EnvExpState::NoInterpol;
            },
            EnvExpState::InEnvName | EnvExpState::ExpEnvName => {
                append_var(res, env, cur);
                *cur = String::new();
                push_char(res, c);
                *state = EnvExpState::InArg;
            },
            EnvExpState::InBracketEnvName => push_char(cur, c),
        }
    } else {
        match s {
            EnvExpState::InArg | EnvExpState::NoInterpol => push_char(res, c),
            EnvExpState::TildeCan => {
                *state = EnvExpState::InArg;
                push_char(res, c);
            },
            EnvExpState::Esc => {
                push_char(res, '\\');
                push_char(res, c);
                *state = EnvExpState::InArg;
            },
            EnvExpState::EscNoInterpol => {
                push_char(res, '\\');
                push_char(res, c);
                *state = EnvExpState::NoInterpol;
            },
            EnvExpState::InEnvName | EnvExpState::ExpEnvName => {
                append_var(res, env, cur);
                *cur = String::new();
                push_char(res, c);
                *state = EnvExpState::InArg;
            },
            EnvExpState::InBracketEnvName => push_char(cur, c),
        }
    }
}

/// Expands the variables and home directory references of `s` against
/// the environment `env`; `pid` is the text of the process id that `$$`
/// stands for and `home` the home directory that `~` stands for.
pub fn interpolate_env(s: &str, env: &StrMap<String>, pid: &str, home: &Option<String>) -> (res:
    String)
    ensures
        res@ == spec_interpolate(env@, pid@, home_text(*home), s@),
{
    broadcast use vstd::string::group_string_axioms;
    let mut res = String::new();
    let mut state = EnvExpState::TildeCan;
    let mut curr_env = String::new();
    for c in it: s.chars()
        invariant
            it.seq() == s@,
            (state, res@, curr_env@) == interp_scan(
                env@,
                pid@,
                home_text(*home),
                s@.take(it.index()),
            ),
    {
        proof {
            assert(s@.take(it.index() + 1).drop_last() == s@.take(it.index()));
        }
        interp_step_exec(&mut state, &mut res, &mut curr_env, c, env, pid, home);
    }
    proof {
        assert(s@.take(s@.len() as int) == s@);
    }
    match state {
        EnvExpState::InArg | EnvExpState::InBracketEnvName | EnvExpState::NoInterpol
        | EnvExpState::TildeCan => {},
        EnvExpState::Esc | EnvExpState::EscNoInterpol => push_char(&mut res, '\\'),
        EnvExpState::ExpEnvName => push_char(&mut res, '$'),
        EnvExpState::InEnvName => append_var(&mut res, env, &curr_env),
    }
    res
}

/// The interpolation scan run from state `st` over `s`.
pub open spec fn interp_run(
    env: Map<Seq<char>, Seq<char>>,
    pid: Seq<char>,
    home: Seq<char>,
    st: InterpScan,
    s: Seq<char>,
) -> InterpScan
    decreases s.len(),
{
    if s.len() == 0 {
        st
    } else {
        interp_step(env, pid, home, interp_run(env, pid, home, st, s.drop_last()), s.last())
    }
}

pub(crate) proof fn lemma_run_concat(
    env: Map<Seq<char>, Seq<char>>,
    pid: Seq<char>,
    home: Seq<char>,
    st: InterpScan,
    a: Seq<char>,
    b: Seq<char>,
)
    ensures
        interp_run(env, pid, home, st, a + b) == interp_run(
            env,
            pid,
            home,
            interp_run(env, pid, home, st, a),
            b,
        ),
    decreases b.len(),
{
    if b.len() == 0 {
        assert(a + b == a);
    } else {
        assert((a + b).drop_last() == a + b.drop_last());
        assert((a + b).last() == b.last());
        lemma_run_concat(env, pid, home, st, a, b.drop_last());
    }
}

pub(crate) proof fn lemma_scan_is_run(env: Map<Seq<char>, Seq<char>>, pid: Seq<char>, home: Seq<char>, s: Seq<char>)
    ensures
        interp_scan(env, pid, home, s) == interp_run(
            env,
            pid,
            home,
            (EnvExpState::TildeCan, Seq::empty(), Seq::empty()),
            s,
        ),
    decreases s.len(),
{
    if s.len() > 0 {
        lemma_scan_is_run(env, pid, home, s.drop_last());
    }
}

/// Text with no `$`, backslash or `~`.
pub open spec fn is_plain_text(s: Seq<char>) -> bool {
    forall|i: int| 0 <= i < s.len() ==> (#[trigger] s[i]) != '$' && s[i] != '\\' && s[i] != '~'
}

proof fn lemma_run_plain(
    env: Map<Seq<char>, Seq<char>>,
    pid: Seq<char>,
    home: Seq<char>,
    st: InterpScan,
    t: Seq<char>,
)
    requires
        st.0 == EnvExpState::TildeCan || st.0 == EnvExpState::InArg,
        st.2 == Seq::<char>::empty(),
        is_plain_text(t),
    ensures
        interp_run(env, pid, home, st, t).0 == EnvExpState::TildeCan || interp_run(
            env,
            pid,
            home,
            st,
            t,
        ).0 == EnvExpState::InArg,
        interp_run(env, pid, home, st, t).1 == st.1 + t,
        interp_run(env, pid, home, st, t).2 == Seq::<char>::empty(),
    decreases t.len(),
{
    if t.len() == 0 {
        assert(st.1 + t == st.1);
    } else {
        let p = t.drop_last();
        assert(is_plain_text(p)) by {
            assert forall|i: int| 0 <= i < p.len() implies (#[trigger] p[i]) != '$' && p[i] != '\\'
                && p[i] != '~' by {
                assert(p[i] == t[i]);
            }
        }
        lemma_run_plain(env, pid, home, st, p);
        assert(t[t.len() - 1] == t.last());
        assert((st.1 + p).push(t.last()) == st.1 + t);
    }
}

/// Text with no `$`, backslash or `~` is left as it is.
pub proof fn lemma_interpolate_plain(
    env: Map<Seq<char>, Seq<char>>,
    pid: Seq<char>,
    home: Seq<char>,
    s: Seq<char>,
)
    requires
        is_plain_text(s),
    ensures
        spec_interpolate(env, pid, home, s) == s,
{
    lemma_scan_is_run(env, pid, home, s);
    lemma_run_plain(env, pid, home, (EnvExpState::TildeCan, Seq::empty(), Seq::empty()), s);
    assert(Seq::<char>::empty() + s == s);
}

proof fn lemma_run_name(
    env: Map<Seq<char>, Seq<char>>,
    pid: Seq<char>,
    home: Seq<char>,
    res: Seq<char>,
    cur: Seq<char>,
    t: Seq<char>,
)
    requires
        forall|i: int| 0 <= i < t.len() ==> is_name_char(#[trigger] t[i]),
    ensures
        interp_run(env, pid, home, (EnvExpState::InEnvName, res, cur), t) == (
            EnvExpState::InEnvName,
            res,
            cur + t,
        ),
    decreases t.len(),
{
    if t.len() == 0 {
        assert(cur + t == cur);
    } else {
        let p = t.drop_last();
        assert forall|i: int| 0 <= i < p.len() implies is_name_char(#[trigger] p[i]) by {
            assert(p[i] == t[i]);
        }
        lemma_run_name(env, pid, home, res, cur, p);
        assert(is_name_char(t[t.len() - 1]));
        assert((cur + p).push(t.last()) == cur + t);
    }
}

/// `$NAME`, with a name of letters, digits and underscores, stands for the
/// value of the variable.
pub proof fn lemma_interpolate_var(
    env: Map<Seq<char>, Seq<char>>,
    pid: Seq<char>,
    home: Seq<char>,
    name: Seq<char>,
)
    requires
        name.len() > 0,
        forall|i: int| 0 <= i < name.len() ==> is_name_char(#[trigger] name[i]),
    ensures
        spec_interpolate(env, pid, home, seq!['$'] + name) == var_value(env, name),
{
    lemma_scan_is_run(env, pid, home, seq!['$'] + name);
    lemma_run_dollar_name(env, pid, home, name);
    assert(Seq::<char>::empty() + var_value(env, name) == var_value(env, name));
}

/// After `$` and a name, the scanner is reading that name, with nothing
/// produced yet.
proof fn lemma_run_dollar_name(
    env: Map<Seq<char>, Seq<char>>,
    pid: Seq<char>,
    home: Seq<char>,
    name: Seq<char>,
)
    requires
        name.len() > 0,
        forall|i: int| 0 <= i < name.len() ==> is_name_char(#[trigger] name[i]),
    ensures
        interp_run(
            env,
            pid,
            home,
            (EnvExpState::TildeCan, Seq::empty(), Seq::empty()),
            seq!['$'] + name,
        ) == (EnvExpState::InEnvName, Seq::<char>::empty(), name),
{
    let init = (EnvExpState::TildeCan, Seq::<char>::empty(), Seq::<char>::empty());
    let first = seq!['$', name[0]];
    let rest = name.drop_first();
    assert(seq!['$'] + name == first + rest);
    lemma_run_concat(env, pid, home, init, first, rest);
    assert(first.drop_last() == seq!['$']);
    assert(seq!['$'].drop_last() == Seq::<char>::empty());
    assert(is_name_char(name[0]));
    assert(seq!['$'].last() == '$');
    assert(first.last() == name[0]);
    assert(interp_run(env, pid, home, init, Seq::<char>::empty()) == init);
    assert(interp_run(env, pid, home, init, seq!['$']) == (
        EnvExpState::ExpEnvName,
        Seq::<char>::empty(),
        Seq::<char>::empty(),
    ));
    assert(Seq::<char>::empty().push(name[0]) == seq![name[0]]);
    assert(interp_run(env, pid, home, init, first) == (
        EnvExpState::InEnvName,
        Seq::<char>::empty(),
        seq![name[0]],
    ));
    assert forall|i: int| 0 <= i < rest.len() implies is_name_char(#[trigger] rest[i]) by {
        assert(rest[i] == name[i + 1]);
    }
    lemma_run_name(env, pid, home, Seq::empty(), seq![name[0]], rest);
    assert(seq![name[0]] + rest == name);
}

/// `$NAME` followed by a character that cannot continue the name (such as
/// `:` or `=`, as in `PATH=$PATH:/opt/bin`) stands for the variable's value
/// followed by that text, where the text holds no `$`, backslash or `~`.
pub proof fn lemma_interpolate_var_then_text(
    env: Map<Seq<char>, Seq<char>>,
    pid: Seq<char>,
    home: Seq<char>,
    name: Seq<char>,
    r: Seq<char>,
)
    requires
        name.len() > 0,
        forall|i: int| 0 <= i < name.len() ==> is_name_char(#[trigger] name[i]),
        r.len() > 0,
        !is_name_char(r[0]),
        is_plain_text(r),
    ensures
        spec_interpolate(env, pid, home, seq!['$'] + name + r) == var_value(env, name) + r,
        env.contains_key(name) ==> spec_interpolate(env, pid, home, seq!['$'] + name + r)
            == env[name] + r,
{
    let init = (EnvExpState::TildeCan, Seq::<char>::empty(), Seq::<char>::empty());
    let c = r[0];
    let tail = r.drop_first();
    let s = seq!['$'] + name + r;
    lemma_scan_is_run(env, pid, home, s);
    assert(s == (seq!['$'] + name + seq![c]) + tail);
    lemma_run_concat(env, pid, home, init, seq!['$'] + name + seq![c], tail);
    lemma_run_concat(env, pid, home, init, seq!['$'] + name, seq![c]);
    lemma_run_dollar_name(env, pid, home, name);
    let st = (EnvExpState::InEnvName, Seq::<char>::empty(), name);
    assert(seq![c].drop_last() == Seq::<char>::empty());
    assert(seq![c].last() == c);
    assert(interp_run(env, pid, home, st, Seq::<char>::empty()) == st);
    assert(c != '$' && c != '\\' && c != '~');
    let v = var_value(env, name);
    assert(Seq::<char>::empty() + v == v);
    let mid = (EnvExpState::InArg, v.push(c), Seq::<char>::empty());
    assert(interp_run(env, pid, home, st, seq![c]) == mid);
    assert(is_plain_text(tail)) by {
        assert forall|i: int| 0 <= i < tail.len() implies (#[trigger] tail[i]) != '$' && tail[i]
            != '\\' && tail[i] != '~' by {
            assert(tail[i] == r[i + 1]);
        }
    }
    lemma_run_plain(env, pid, home, mid, tail);
    assert(v.push(c) + tail == v + r);
}

proof fn lemma_run_braced(
    env: Map<Seq<char>, Seq<char>>,
    pid: Seq<char>,
    home: Seq<char>,
    res: Seq<char>,
    cur: Seq<char>,
    t: Seq<char>,
)
    requires
        !t.contains('}'),
    ensures
        interp_run(env, pid, home, (EnvExpState::InBracketEnvName, res, cur), t) == (
            EnvExpState::InBracketEnvName,
            res,
            cur + t,
        ),
    decreases t.len(),
{
    if t.len() == 0 {
        assert(cur + t == cur);
    } else {
        let p = t.drop_last();
        assert(!p.contains('}')) by {
            if p.contains('}') {
                let j = choose|j: int| 0 <= j < p.len() && p[j] == '}';
                assert(t[j] == '}');
            }
        }
        lemma_run_braced(env, pid, home, res, cur, p);
        assert(t[t.len() - 1] != '}');
        assert((cur + p).push(t.last()) == cur + t);
    }
}

/// `${NAME}`, with a name holding no `}`, stands for the value of the
/// variable.
pub proof fn lemma_interpolate_braced(
    env: Map<Seq<char>, Seq<char>>,
    pid: Seq<char>,
    home: Seq<char>,
    name: Seq<char>,
)
    requires
        !name.contains('}'),
    ensures
        spec_interpolate(env, pid, home, seq!['$', '{'] + name + seq!['}']) == var_value(env, name),
{
    let init = (EnvExpState::TildeCan, Seq::<char>::empty(), Seq::<char>::empty());
    let s = seq!['$', '{'] + name + seq!['}'];
    lemma_scan_is_run(env, pid, home, s);
    lemma_run_concat(env, pid, home, init, seq!['$', '{'], name + seq!['}']);
    assert(s == seq!['$', '{'] + (name + seq!['}']));
    assert(seq!['$', '{'].drop_last() == seq!['$']);
    assert(seq!['$'].drop_last() == Seq::<char>::empty());
    let st = (EnvExpState::InBracketEnvName, Seq::<char>::empty(), Seq::<char>::empty());
    assert(seq!['$'].last() == '$');
    assert(seq!['$', '{'].last() == '{');
    assert(interp_run(env, pid, home, init, Seq::<char>::empty()) == init);
    assert(interp_run(env, pid, home, init, seq!['$']) == (
        EnvExpState::ExpEnvName,
        Seq::<char>::empty(),
        Seq::<char>::empty(),
    ));
    assert(interp_run(env, pid, home, init, seq!['$', '{']) == st);
    lemma_run_concat(env, pid, home, st, name, seq!['}']);
    lemma_run_braced(env, pid, home, Seq::empty(), Seq::empty(), name);
    assert(Seq::<char>::empty() + name == name);
    assert(seq!['}'].drop_last() == Seq::<char>::empty());
    assert(seq!['}'].last() == '}');
    let mid = (EnvExpState::InBracketEnvName, Seq::<char>::empty(), name);
    assert(interp_run(env, pid, home, mid, Seq::<char>::empty()) == mid);
    assert(Seq::<char>::empty() + var_value(env, name) == var_value(env, name));
    assert(interp_run(env, pid, home, mid, seq!['}']) == (
        EnvExpState::InArg,
        var_value(env, name),
        Seq::<char>::empty(),
    ));
}

/// `$$` stands for the process id.
pub proof fn lemma_interpolate_pid(env: Map<Seq<char>, Seq<char>>, pid: Seq<char>, home: Seq<char>)
    ensures
        spec_interpolate(env, pid, home, seq!['$', '$']) == pid,
{
    let init = (EnvExpState::TildeCan, Seq::<char>::empty(), Seq::<char>::empty());
    assert(seq!['$', '$'].drop_last() == seq!['$']);
    assert(seq!['$'].drop_last() == Seq::<char>::empty());
    assert(seq!['$'].last() == '$');
    assert(seq!['$', '$'].last() == '$');
    assert(Seq::<char>::empty() + pid == pid);
    assert(interp_scan(env, pid, home, Seq::<char>::empty()) == init);
    assert(interp_scan(env, pid, home, seq!['$']) == (
        EnvExpState::ExpEnvName,
        Seq::<char>::empty(),
        Seq::<char>::empty(),
    ));
    assert(interp_scan(env, pid, home, seq!['$', '$']) == (
        EnvExpState::InArg,
        pid,
        Seq::<char>::empty(),
    ));
}

/// A leading `~` stands for the home directory; text after it with no `$`,
/// backslash or `~` is kept.
pub proof fn lemma_interpolate_home(
    env: Map<Seq<char>, Seq<char>>,
    pid: Seq<char>,
    home: Seq<char>,
    rest: Seq<char>,
)
    requires
        is_plain_text(rest),
    ensures
        spec_interpolate(env, pid, home, seq!['~'] + rest) == home + rest,
{
    let init = (EnvExpState::TildeCan, Seq::<char>::empty(), Seq::<char>::empty());
    lemma_scan_is_run(env, pid, home, seq!['~'] + rest);
    lemma_run_concat(env, pid, home, init, seq!['~'], rest);
    assert(seq!['~'].drop_last() == Seq::<char>::empty());
    assert(Seq::<char>::empty() + home == home);
    let st = (EnvExpState::InArg, home, Seq::<char>::empty());
    assert(seq!['~'].last() == '~');
    assert(interp_run(env, pid, home, init, Seq::<char>::empty()) == init);
    assert(interp_run(env, pid, home, init, seq!['~']) == st);
    lemma_run_plain(env, pid, home, st, rest);
}

} // verus!
