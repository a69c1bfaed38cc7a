//! Expansion of command aliases.
use vstd::prelude::*;
use crate::strmap::StrMap;
use crate::wildcard::views;
use crate::interp::{interpolate_env, spec_interpolate, home_text};
use crate::text::{chars_of, string_from_range};

verus! {

/// Each text of `ws` interpolated.
pub open spec fn interp_all(
    env: Map<Seq<char>, Seq<char>>,
    pid: Seq<char>,
    home: Seq<char>,
    ws: Seq<Seq<char>>,
) -> Seq<Seq<char>> {
    ws.map_values(|e: Seq<char>| spec_interpolate(env, pid, home, e))
}

proof fn lemma_interp_all_push(
    env: Map<Seq<char>, Seq<char>>,
    pid: Seq<char>,
    home: Seq<char>,
    ws: Seq<Seq<char>>,
    w: Seq<char>,
)
    ensures
        interp_all(env, pid, home, ws.push(w)) == interp_all(env, pid, home, ws).push(
            spec_interpolate(env, pid, home, w),
        ),
{
    assert(interp_all(env, pid, home, ws.push(w)) =~= interp_all(env, pid, home, ws).push(
        spec_interpolate(env, pid, home, w),
    ));
}

/// The words an alias definition expands to: its first word as it is, the
/// others interpolated.
pub open spec fn spec_alias_words(
    env: Map<Seq<char>, Seq<char>>,
    pid: Seq<char>,
    home: Seq<char>,
    exp: Seq<Seq<char>>,
) -> Seq<Seq<char>> {
    if exp.len() == 0 {
        Seq::empty()
    } else {
        seq![exp[0]] + interp_all(env, pid, home, exp.drop_first())
    }
}

/// A command with its first word replaced by its alias, where it has one;
/// else with one leading backslash of the first word removed.
pub open spec fn spec_expand_alias(
    aliases: Map<Seq<char>, Seq<Seq<char>>>,
    cmd: Seq<Seq<char>>,
    env: Map<Seq<char>, Seq<char>>,
    pid: Seq<char>,
    home: Seq<char>,
) -> Seq<Seq<char>> {
    if aliases.contains_key(cmd[0]) {
        spec_alias_words(env, pid, home, aliases[cmd[0]]) + cmd.drop_first()
    } else if cmd[0].len() > 0 && cmd[0][0] == '\\' {
        cmd.update(0, cmd[0].drop_first())
    } else {
        cmd
    }
}

/// Replaces the first word of a command by the words of its alias, the
/// words after the first interpolated against `env`; a command that is no
/// alias loses one leading backslash (`\ls` runs `ls` past its alias).
pub fn expand_alias(
    aliases: &StrMap<Vec<String>>,
    cmd: Vec<String>,
    env: &StrMap<String>,
    pid: &str,
    home: &Option<String>,
) -> (res: Vec<String>)
    requires
        cmd.len() > 0,
    ensures
        views(res@) == spec_expand_alias(aliases@, views(cmd@), env@, pid@, home_text(*home)),
{
    let ghost c = views(cmd@);
    let ghost hm = home_text(*home);
    match aliases.get(cmd[0].as_str()) {
        Some(expand) => {
            let mut res: Vec<String> = Vec::new();
            let ghost ex = views(expand@);
            if expand.len() > 0 {
                res.push(expand[0].clone());
                let mut i: usize = 1;
                while i < expand.len()
                    invariant
                        1 <= i <= expand.len(),
                        ex == views(expand@),
                        hm == home_text(*home),
                        views(res@) == seq![ex[0]] + interp_all(env@, pid@, hm, ex.subrange(1, i as int)),
                    decreases expand.len() - i,
                {
                    let w = interpolate_env(expand[i].as_str(), env, pid, home);
                    let ghost old_res = res@;
                    res.push(w);
                    proof {
                        assert(views(res@) == views(old_res).push(w@));
                        assert(expand@[i as int]@ == ex[i as int]);
                        assert(ex.subrange(1, i + 1) == ex.subrange(1, i as int).push(ex[i as int]));
                        lemma_interp_all_push(env@, pid@, hm, ex.subrange(1, i as int), ex[i as int]);
                        let t = interp_all(env@, pid@, hm, ex.subrange(1, i as int));
                        assert(seq![ex[0]] + t.push(w@) == (seq![ex[0]] + t).push(w@));
                    }
                    i += 1;
                }
                proof {
                    assert(ex.subrange(1, ex.len() as int) == ex.drop_first());
                }
            } else {
                assert(views(res@) == Seq::<Seq<char>>::empty());
            }
            let ghost head = views(res@);
            let mut j: usize = 1;
            while j < cmd.len()
                invariant
                    1 <= j <= cmd.len(),
                    c == views(cmd@),
                    views(res@) == head + c.subrange(1, j as int),
                decreases cmd.len() - j,
            {
                let ghost old_res = res@;
                res.push(cmd[j].clone());
                proof {
                    assert(views(res@) == views(old_res).push(c[j as int]));
                    assert(head + c.subrange(1, j as int).push(c[j as int]) == (head + c.subrange(1, j as int)).push(c[j as int]));
                    assert(c.subrange(1, j + 1) == c.subrange(1, j as int).push(c[j as int]));
                }
                j += 1;
            }
            proof {
                assert(c.subrange(1, c.len() as int) == c.drop_first());
            }
            res
        },
        None => {
            let first = chars_of(cmd[0].as_str());
            if first.len() > 0 && first[0] == '\\' {
                let stripped = string_from_range(&first, 1, first.len());
                let mut res = cmd;
                res.set(0, stripped);
                proof {
                    assert(first@.subrange(1, first@.len() as int) == first@.drop_first());
                    assert(views(res@) == c.update(0, c[0].drop_first()));
                }
                res
            } else {
                cmd
            }
        },
    }
}

} // verus!
