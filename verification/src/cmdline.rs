//! Lexing of a command line into words, pipeline stages, redirections and
//! the background flag.
use vstd::prelude::*;
use crate::text::push_char;
use crate::strmap::StrMap;
use crate::wildcard::CmdState;
use crate::interp::{interpolate_env, spec_interpolate, home_text, interp_scan, EnvExpState};

verus! {

/// Where the word being read goes: to the arguments, or to the input or the
/// output file.
#[derive(Clone, Copy, Debug, PartialEq, Eq, Structural)]
pub enum RedirectState {
    NoRedirect,
    Input,
    Output,
}

/// A word of a command: its text, and whether a wildcard was typed in the
/// word or an earlier one (so that the caller expands it against the file
/// system).
pub struct Word {
    pub text: String,
    pub wild: bool,
}

/// A lexed command line.
pub struct CmdLine {
    /// The words of the last pipeline stage.
    pub args: Vec<Word>,
    /// The words of each earlier pipeline stage.
    pub piped: Vec<Vec<Word>>,
    /// The file named after `<`, or empty.
    pub in_file: String,
    /// The file named after `>` or `>>`, or empty.
    pub out_file: String,
    /// Whether the output is appended (`>>`).
    pub append: bool,
    /// Whether the line ends in `&`.
    pub background: bool,
}

pub open spec fn word_view(w: Word) -> (Seq<char>, bool) {
    (w.text@, w.wild)
}

pub open spec fn words_view(v: Seq<Word>) -> Seq<(Seq<char>, bool)> {
    v.map_values(|w: Word| word_view(w))
}

pub open spec fn stages_view(v: Seq<Vec<Word>>) -> Seq<Seq<(Seq<char>, bool)>> {
    v.map_values(|g: Vec<Word>| words_view(g@))
}

/// The state of the lexer.
pub struct ParseScan {
    pub state: CmdState,
    pub red: RedirectState,
    pub res: Seq<(Seq<char>, bool)>,
    pub pipes: Seq<Seq<(Seq<char>, bool)>>,
    pub comp: Seq<char>,
    pub seg: Seq<char>,
    pub blob: bool,
    pub input: Seq<char>,
    pub output: Seq<char>,
    pub append: bool,
    pub asynch: bool,
}

/// The characters that end a word outside quotes.
pub open spec fn is_separator(c: char) -> bool {
    c == ' ' || c == '\t' || c == '\r' || c == '\n' || c == '\u{00a0}' || c == '|' || c == '('
        || c == ')' || c == '<' || c == '>' || c == ';' || c == '&' || c == '\u{000C}' || c
        == '\u{000B}'
}

/// The parameters of the lexer: the environment, the process id text, the
/// home directory text, and whether `*` marks a wildcard.
pub struct ParseEnv {
    pub env: Map<Seq<char>, Seq<char>>,
    pub pid: Seq<char>,
    pub home: Seq<char>,
    pub unix_glob: bool,
}

/// The word collected so far with its pending unquoted segment interpolated.
pub open spec fn flush_seg(pe: ParseEnv, st: ParseScan) -> Seq<char> {
    st.comp + spec_interpolate(pe.env, pe.pid, pe.home, st.seg)
}

/// A separator or `|`, `<`, `>`, `&` between words.
pub open spec fn after_word(st: ParseScan, c: char, ends_word: bool) -> ParseScan {
    if c == '|' {
        ParseScan { pipes: st.pipes.push(st.res), res: Seq::empty(), ..st }
    } else if c == '<' {
        ParseScan { red: RedirectState::Input, ..st }
    } else if c == '>' {
        if st.red == RedirectState::Output {
            ParseScan { append: true, ..st }
        } else {
            ParseScan { red: RedirectState::Output, ..st }
        }
    } else if c == '&' {
        ParseScan { asynch: true, ..st }
    } else if ends_word {
        ParseScan { red: RedirectState::NoRedirect, ..st }
    } else {
        st
    }
}

/// The word `w` finished: an argument, or the input or output file.
pub open spec fn store_word(st: ParseScan, w: Seq<char>) -> ParseScan {
    match st.red {
        RedirectState::NoRedirect => ParseScan { res: st.res.push((w, st.blob)), ..st },
        RedirectState::Input => ParseScan { input: w, ..st },
        RedirectState::Output => ParseScan { output: w, ..st },
    }
}

/// One step of the lexer.
pub open spec fn parse_step(pe: ParseEnv, st: ParseScan, c: char) -> ParseScan {
    if is_separator(c) {
        match st.state {
            CmdState::StartArg => after_word(st, c, false),
            CmdState::InArg => {
                let w = flush_seg(pe, st);
                let st1 = store_word(ParseScan { state: CmdState::StartArg, ..st }, w);
                after_word(ParseScan { seg: Seq::empty(), comp: Seq::empty(), ..st1 }, c, true)
            },
            CmdState::Esc => ParseScan { state: CmdState::InArg, seg: st.seg.push(c), ..st },
            CmdState::QuotedArg => ParseScan { comp: st.comp.push(c), ..st },
            CmdState::DblQuotedArg => ParseScan { seg: st.seg.push(c), ..st },
            CmdState::QEsc => ParseScan { state: CmdState::QuotedArg, comp: st.comp.push(c), ..st },
            CmdState::DEsc => ParseScan { state: CmdState::DblQuotedArg, seg: st.seg.push(c), ..st },
        }
    } else {
        let st = ParseScan { asynch: false, ..st };
        if c == '"' {
            match st.state {
                CmdState::StartArg => ParseScan { state: CmdState::DblQuotedArg, blob: false, ..st },
                CmdState::InArg => ParseScan {
                    state: CmdState::DblQuotedArg,
                    comp: flush_seg(pe, st),
                    seg: Seq::empty(),
                    ..st
                },
                CmdState::QuotedArg => ParseScan { comp: st.comp.push(c), ..st },
                CmdState::Esc => ParseScan {
                    state: CmdState::InArg,
                    seg: st.seg.push('\\').push(c),
                    ..st
                },
                CmdState::QEsc => ParseScan {
                    state: CmdState::QuotedArg,
                    comp: st.comp.push('\\').push(c),
                    ..st
                },
                CmdState::DEsc => ParseScan { state: CmdState::DblQuotedArg, seg: st.seg.push(c), ..st },
                CmdState::DblQuotedArg => ParseScan {
                    state: CmdState::InArg,
                    comp: flush_seg(pe, st),
                    seg: Seq::empty(),
                    ..st
                },
            }
        } else if c == '\'' {
            match st.state {
                CmdState::StartArg => ParseScan { state: CmdState::QuotedArg, blob: false, ..st },
                CmdState::InArg => ParseScan {
                    state: CmdState::QuotedArg,
                    comp: flush_seg(pe, st),
                    seg: Seq::empty(),
                    ..st
                },
                CmdState::QuotedArg => ParseScan { state: CmdState::InArg, ..st },
                CmdState::Esc => ParseScan {
                    state: CmdState::InArg,
                    seg: st.seg.push('\\').push(c),
                    ..st
                },
                CmdState::QEsc => ParseScan { state: CmdState::QuotedArg, comp: st.comp.push(c), ..st },
                CmdState::DEsc => ParseScan {
                    state: CmdState::DblQuotedArg,
                    seg: st.seg.push('\\').push(c),
                    ..st
                },
                CmdState::DblQuotedArg => ParseScan { seg: st.seg.push(c), ..st },
            }
        } else if c == '\\' {
            match st.state {
                CmdState::StartArg | CmdState::InArg => ParseScan { state: CmdState::Esc, ..st },
                CmdState::QuotedArg => ParseScan { state: CmdState::QEsc, ..st },
                CmdState::DblQuotedArg => ParseScan { state: CmdState::DEsc, ..st },
                CmdState::Esc => ParseScan { state: CmdState::InArg, seg: st.seg.push(c), ..st },
                CmdState::QEsc => ParseScan { state: CmdState::QuotedArg, comp: st.comp.push(c), ..st },
                CmdState::DEsc => ParseScan { state: CmdState::DblQuotedArg, seg: st.seg.push(c), ..st },
            }
        } else if c == '*' && pe.unix_glob {
            match st.state {
                CmdState::StartArg | CmdState::InArg => ParseScan {
                    state: CmdState::InArg,
                    seg: st.seg.push(c),
                    blob: true,
                    ..st
                },
                CmdState::QuotedArg | CmdState::DblQuotedArg => ParseScan { comp: st.comp.push(c), ..st },
                CmdState::Esc => ParseScan { state: CmdState::InArg, seg: st.seg.push(c), ..st },
                CmdState::QEsc => ParseScan {
                    state: CmdState::QuotedArg,
                    comp: st.comp.push('\\').push(c),
                    ..st
                },
                CmdState::DEsc => ParseScan {
                    state: CmdState::DblQuotedArg,
                    seg: st.seg.push('\\').push(c),
                    ..st
                },
            }
        } else {
            match st.state {
                CmdState::StartArg | CmdState::InArg => ParseScan {
                    state: CmdState::InArg,
                    seg: st.seg.push(c),
                    ..st
                },
                CmdState::QuotedArg => ParseScan { comp: st.comp.push(c), ..st },
                CmdState::DblQuotedArg => ParseScan { seg: st.seg.push(c), ..st },
                CmdState::Esc => ParseScan {
                    state: CmdState::InArg,
                    seg: st.seg.push('\\').push(c),
                    ..st
                },
                CmdState::QEsc => ParseScan {
                    state: CmdState::QuotedArg,
                    comp: st.comp.push('\\').push(c),
                    ..st
                },
                CmdState::DEsc => ParseScan {
                    state: CmdState::DblQuotedArg,
                    seg: st.seg.push('\\').push(c),
                    ..st
                },
            }
        }
    }
}

pub open spec fn parse_init() -> ParseScan {
    ParseScan {
        state: CmdState::StartArg,
        red: RedirectState::NoRedirect,
        res: Seq::empty(),
        pipes: Seq::empty(),
        comp: Seq::empty(),
        seg: Seq::empty(),
        blob: false,
        input: Seq::empty(),
        output: Seq::empty(),
        append: false,
        asynch: false,
    }
}

/// The lexer state after reading `s`.
pub open spec fn parse_scan(pe: ParseEnv, s: Seq<char>) -> ParseScan
    decreases s.len(),
{
    if s.len() == 0 {
        parse_init()
    } else {
        parse_step(pe, parse_scan(pe, s.drop_last()), s.last())
    }
}

/// The end of the line: a pending backslash is kept, and the word being
/// read is finished.
pub open spec fn parse_finish(pe: ParseEnv, st: ParseScan) -> ParseScan {
    let st = match st.state {
        CmdState::Esc => ParseScan { seg: st.seg.push('\\'), state: CmdState::InArg, ..st },
        CmdState::DEsc => ParseScan { seg: st.seg.push('\\'), state: CmdState::DblQuotedArg, ..st },
        CmdState::QEsc => ParseScan { comp: st.comp.push('\\'), state: CmdState::QuotedArg, ..st },
        _ => st,
    };
    match st.state {
        CmdState::InArg | CmdState::DblQuotedArg => store_word(st, flush_seg(pe, st)),
        CmdState::QuotedArg => store_word(st, st.comp),
        _ => st,
    }
}

/// The lexed form of `s`.
pub open spec fn spec_parse_cmd(pe: ParseEnv, s: Seq<char>) -> ParseScan {
    parse_finish(pe, parse_scan(pe, s))
}

fn is_separator_exec(c: char) -> (r: bool)
    ensures
        r == is_separator(c),
{
    c == ' ' || c == '\t' || c == '\r' || c == '\n' || c == '\u{00a0}' || c == '|' || c == '('
        || c == ')' || c == '<' || c == '>' || c == ';' || c == '&' || c == '\u{000C}' || c
        == '\u{000B}'
}

/// The lexer's working state.
struct Lexer {
    state: CmdState,
    red: RedirectState,
    res: Vec<Word>,
    pipes: Vec<Vec<Word>>,
    comp: String,
    seg: String,
    blob: bool,
    input: String,
    output: String,
    append: bool,
    asynch: bool,
}

impl Lexer {
    closed spec fn view(self) -> ParseScan {
        ParseScan {
            state: self.state,
            red: self.red,
            res: words_view(self.res@),
            pipes: stages_view(self.pipes@),
            comp: self.comp@,
            seg: self.seg@,
            blob: self.blob,
            input: self.input@,
            output: self.output@,
            append: self.append,
            asynch: self.asynch,
        }
    }

    /// Interpolates the pending unquoted segment onto the word.
    fn flush(&mut self, env: &StrMap<String>, pid: &str, home: &Option<String>)
        ensures
            final(self).view() == (ParseScan {
                comp: old(self).view().comp + spec_interpolate(
                    env@,
                    pid@,
                    home_text(*home),
                    old(self).view().seg,
                ),
                seg: Seq::empty(),
                ..old(self).view()
            }),
    {
        if self.seg.unicode_len() > 0 {
            let part = interpolate_env(self.seg.as_str(), env, pid, home);
            self.comp.append(part.as_str());
            self.seg = String::new();
        } else {
            proof {
                assert(interp_scan(env@, pid@, home_text(*home), self.seg@) == (
                    EnvExpState::TildeCan,
                    Seq::<char>::empty(),
                    Seq::<char>::empty(),
                ));
                assert(self.comp@ + Seq::<char>::empty() == self.comp@);
            }
            self.seg = String::new();
        }
    }

    /// Takes the word collected so far, leaving it empty.
    fn take_comp(&mut self) -> (w: String)
        ensures
            w@ == old(self).view().comp,
            final(self).view() == (ParseScan { comp: Seq::empty(), ..old(self).view() }),
    {
        let mut w = String::new();
        std::mem::swap(&mut w, &mut self.comp);
        w
    }

    fn store(&mut self, w: String)
        ensures
            final(self).view() == store_word(old(self).view(), w@),
    {
        match self.red {
            RedirectState::NoRedirect => {
                let ghost old_res = self.res@;
                let word = Word { text: w, wild: self.blob };
                self.res.push(word);
                proof {
                    assert(words_view(self.res@) == words_view(old_res).push((w@, self.blob)));
                }
            },
            RedirectState::Input => self.input = w,
            RedirectState::Output => self.output = w,
        }
    }

    fn after_word(&mut self, c: char, ends_word: bool)
        ensures
            final(self).view() == after_word(old(self).view(), c, ends_word),
    {
        if c == '|' {
            let ghost old_pipes = self.pipes@;
            let ghost old_res = self.res@;
            let mut done: Vec<Word> = Vec::new();
            std::mem::swap(&mut done, &mut self.res);
            self.pipes.push(done);
            proof {
                assert(stages_view(self.pipes@) == stages_view(old_pipes).push(words_view(old_res)));
                assert(words_view(self.res@) == Seq::<(Seq<char>, bool)>::empty());
            }
        } else if c == '<' {
            self.red = RedirectState::Input;
        } else if c == '>' {
            if self.red == RedirectState::Output {
                self.append = true;
            } else {
                self.red = RedirectState::Output;
            }
        } else if c == '&' {
            self.asynch = true;
        } else if ends_word {
            self.red = RedirectState::NoRedirect;
        }
    }

    #[verifier::rlimit(60)]
    fn step(&mut self, c: char, env: &StrMap<String>, pid: &str, home: &Option<String>, unix_glob: bool)
        ensures
            final(self).view() == parse_step(
                ParseEnv { env: env@, pid: pid@, home: home_text(*home), unix_glob },
                old(self).view(),
                c,
            ),
    {
        if is_separator_exec(c) {
            match self.state {
                CmdState::StartArg => self.after_word(c, false),
                CmdState::InArg => {
                    self.state = CmdState::StartArg;
                    self.flush(env, pid, home);
                    let w = self.take_comp();
                    self.store(w);
                    self.after_word(c, true);
                },
                CmdState::Esc => {
                    self.state = CmdState::InArg;
                    push_char(&mut self.seg, c);
                },
                CmdState::QuotedArg => push_char(&mut self.comp, c),
                CmdState::DblQuotedArg => push_char(&mut self.seg, c),
                CmdState::QEsc => {
                    self.state = CmdState::QuotedArg;
                    push_char(&mut self.comp, c);
                },
                CmdState::DEsc => {
                    self.state = CmdState::DblQuotedArg;
                    push_char(&mut self.seg, c);
                },
            }
        } else {
            self.asynch = false;
            if c == '"' {
                match self.state {
                    CmdState::StartArg => {
                        self.state = CmdState::DblQuotedArg;
                        self.blob = false;
                    },
                    CmdState::InArg => {
                        self.state = CmdState::DblQuotedArg;
                        self.flush(env, pid, home);
                    },
                    CmdState::QuotedArg => push_char(&mut self.comp, c),
                    CmdState::Esc => {
                        push_char(&mut self.seg, '\\');
                        push_char(&mut self.seg, c);
                        self.state = CmdState::InArg;
                    },
                    CmdState::QEsc => {
                        push_char(&mut self.comp, '\\');
                        push_char(&mut self.comp, c);
                        self.state = CmdState::QuotedArg;
                    },
                    CmdState::DEsc => {
                        self.state = CmdState::DblQuotedArg;
                        push_char(&mut self.seg, c);
                    },
                    CmdState::DblQuotedArg => {
                        self.flush(env, pid, home);
                        self.state = CmdState::InArg;
                    },
                }
            } else if c == '\'' {
                match self.state {
                    CmdState::StartArg => {
                        self.state = CmdState::QuotedArg;
                        self.blob = false;
                    },
                    CmdState::InArg => {
                        self.flush(env, pid, home);
                        self.state = CmdState::QuotedArg;
                    },
                    CmdState::QuotedArg => self.state = CmdState::InArg,
                    CmdState::Esc => {
                        push_char(&mut self.seg, '\\');
                        push_char(&mut self.seg, c);
                        self.state = CmdState::InArg;
                    },
                    CmdState::QEsc => {
                        push_char(&mut self.comp, c);
                        self.state = CmdState::QuotedArg;
                    },
                    CmdState::DEsc => {
                        push_char(&mut self.seg, '\\');
                        push_char(&mut self.seg, c);
                        self.state = CmdState::DblQuotedArg;
                    },
                    CmdState::DblQuotedArg => push_char(&mut self.seg, c),
                }
            } else if c == '\\' {
                match self.state {
                    CmdState::StartArg | CmdState::InArg => self.state = CmdState::Esc,
                    CmdState::QuotedArg => self.state = CmdState::QEsc,
                    CmdState::DblQuotedArg => self.state = CmdState::DEsc,
                    CmdState::Esc => {
                        self.state = CmdState::InArg;
                        push_char(&mut self.seg, c);
                    },
                    CmdState::QEsc => {
                        self.state = CmdState::QuotedArg;
                        push_char(&mut self.comp, c);
                    },
                    CmdState::DEsc => {
                        self.state = CmdState::DblQuotedArg;
                        push_char(&mut self.seg, c);
                    },
                }
            } else if c == '*' && unix_glob {
                match self.state {
                    CmdState::StartArg | CmdState::InArg => {
                        self.state = CmdState::InArg;
                        push_char(&mut self.seg, c);
                        self.blob = true;
                    },
                    CmdState::QuotedArg | CmdState::DblQuotedArg => push_char(&mut self.comp, c),
                    CmdState::Esc => {
                        self.state = CmdState::InArg;
                        push_char(&mut self.seg, c);
                    },
                    CmdState::QEsc => {
                        self.state = CmdState::QuotedArg;
                        push_char(&mut self.comp, '\\');
                        push_char(&mut self.comp, c);
                    },
                    CmdState::DEsc => {
                        self.state = CmdState::DblQuotedArg;
                        push_char(&mut self.seg, '\\');
                        push_char(&mut self.seg, c);
                    },
                }
            } else {
                match self.state {
                    CmdState::StartArg | CmdState::InArg => {
                        self.state = CmdState::InArg;
                        push_char(&mut self.seg, c);
                    },
                    CmdState::QuotedArg => push_char(&mut self.comp, c),
                    CmdState::DblQuotedArg => push_char(&mut self.seg, c),
                    CmdState::Esc => {
                        self.state = CmdState::InArg;
                        push_char(&mut self.seg, '\\');
                        push_char(&mut self.seg, c);
                    },
                    CmdState::QEsc => {
                        self.state = CmdState::QuotedArg;
                        push_char(&mut self.comp, '\\');
                        push_char(&mut self.comp, c);
                    },
                    CmdState::DEsc => {
                        self.state = CmdState::DblQuotedArg;
                        push_char(&mut self.seg, '\\');
                        push_char(&mut self.seg, c);
                    },
                }
            }
        }
    }
}

/// Lexes a command line: words separated by blanks and `| ( ) < > ; &`,
/// quoting with `'` (literal) and `"` (interpolated), backslash escapes,
/// `|` pipelines, `<` and `>`/`>>` redirections, and a trailing `&`.
/// Unquoted text is interpolated against `env` (see `interpolate_env`);
/// where `unix_glob` holds, an unquoted `*` marks the word as a wildcard.
pub fn parse_cmd(
    input: &str,
    env: &StrMap<String>,
    pid: &str,
    home: &Option<String>,
    unix_glob: bool,
) -> (res: CmdLine)
    ensures
        ({
            let p = spec_parse_cmd(
                ParseEnv { env: env@, pid: pid@, home: home_text(*home), unix_glob },
                input@,
            );
            &&& words_view(res.args@) == p.res
            &&& stages_view(res.piped@) == p.pipes
            &&& res.in_file@ == p.input
            &&& res.out_file@ == p.output
            &&& res.append == p.append
            &&& res.background == p.asynch
        }),
{
    broadcast use vstd::string::group_string_axioms;
    let ghost pe = ParseEnv { env: env@, pid: pid@, home: home_text(*home), unix_glob };
    let mut lx = Lexer {
        state: CmdState::StartArg,
        red: RedirectState::NoRedirect,
        res: Vec::new(),
        pipes: Vec::new(),
        comp: String::new(),
        seg: String::new(),
        blob: false,
        input: String::new(),
        output: String::new(),
        append: false,
        asynch: false,
    };
    proof {
        assert(words_view(lx.res@) =~= Seq::<(Seq<char>, bool)>::empty());
        assert(stages_view(lx.pipes@) =~= Seq::<Seq<(Seq<char>, bool)>>::empty());
        assert(lx.view() == parse_init());
    }
    for c in it: input.chars()
        invariant
            it.seq() == input@,
            pe == (ParseEnv { env: env@, pid: pid@, home: home_text(*home), unix_glob }),
            lx.view() == parse_scan(pe, input@.take(it.index())),
    {
        proof {
            assert(input@.take(it.index() + 1).drop_last() == input@.take(it.index()));
        }
        lx.step(c, env, pid, home, unix_glob);
    }
    proof {
        assert(input@.take(input@.len() as int) == input@);
    }
    match lx.state {
        CmdState::Esc => {
            push_char(&mut lx.seg, '\\');
            lx.state = CmdState::InArg;
        },
        CmdState::DEsc => {
            push_char(&mut lx.seg, '\\');
            lx.state = CmdState::DblQuotedArg;
        },
        CmdState::QEsc => {
            push_char(&mut lx.comp, '\\');
            lx.state = CmdState::QuotedArg;
        },
        _ => {},
    }
    match lx.state {
        CmdState::InArg | CmdState::DblQuotedArg => {
            let part = interpolate_env(lx.seg.as_str(), env, pid, home);
            lx.comp.append(part.as_str());
            let w = lx.take_comp();
            lx.store(w);
        },
        CmdState::QuotedArg => {
            let w = lx.take_comp();
            lx.store(w);
        },
        _ => {},
    }
    CmdLine {
        args: lx.res,
        piped: lx.pipes,
        in_file: lx.input,
        out_file: lx.output,
        append: lx.append,
        background: lx.asynch,
    }
}

/// The lexer run from state `st` over `s`.
pub open spec fn parse_run(pe: ParseEnv, st: ParseScan, s: Seq<char>) -> ParseScan
    decreases s.len(),
{
    if s.len() == 0 {
        st
    } else {
        parse_step(pe, parse_run(pe, st, s.drop_last()), s.last())
    }
}

proof fn lemma_parse_run_concat(pe: ParseEnv, st: ParseScan, a: Seq<char>, b: Seq<char>)
    ensures
        parse_run(pe, st, a + b) == parse_run(pe, parse_run(pe, st, a), b),
    decreases b.len(),
{
    if b.len() == 0 {
        assert(a + b == a);
    } else {
        assert((a + b).drop_last() == a + b.drop_last());
        assert((a + b).last() == b.last());
        lemma_parse_run_concat(pe, st, a, b.drop_last());
    }
}

proof fn lemma_parse_scan_is_run(pe: ParseEnv, s: Seq<char>)
    ensures
        parse_scan(pe, s) == parse_run(pe, parse_init(), s),
    decreases s.len(),
{
    if s.len() > 0 {
        lemma_parse_scan_is_run(pe, s.drop_last());
    }
}

/// A character that stands for itself in an unquoted word: no blank or
/// separator, quote, backslash, `$`, `~` or `*`.
pub open spec fn is_plain_word_char(c: char) -> bool {
    !is_separator(c) && c != '"' && c != '\'' && c != '\\' && c != '$' && c != '~' && c != '*'
}

/// A nonempty word of characters that stand for themselves.
pub open spec fn is_plain_word(w: Seq<char>) -> bool {
    w.len() > 0 && forall|i: int| 0 <= i < w.len() ==> is_plain_word_char(#[trigger] w[i])
}

/// Words joined by single blanks.
pub open spec fn join_words(ws: Seq<Seq<char>>) -> Seq<char>
    decreases ws.len(),
{
    if ws.len() <= 1 {
        if ws.len() == 1 {
            ws[0]
        } else {
            Seq::empty()
        }
    } else {
        join_words(ws.drop_last()).push(' ') + ws.last()
    }
}

/// Words as plain arguments, not wildcards.
pub open spec fn plain_args(ws: Seq<Seq<char>>) -> Seq<(Seq<char>, bool)> {
    ws.map_values(|w: Seq<char>| (w, false))
}

proof fn lemma_run_plain_word(pe: ParseEnv, st: ParseScan, w: Seq<char>)
    requires
        st.state == CmdState::StartArg || st.state == CmdState::InArg,
        w.len() > 0,
        forall|i: int| 0 <= i < w.len() ==> is_plain_word_char(#[trigger] w[i]),
    ensures
        parse_run(pe, st, w) == (ParseScan {
            state: CmdState::InArg,
            seg: st.seg + w,
            asynch: false,
            ..st
        }),
    decreases w.len(),
{
    let p = w.drop_last();
    let c = w.last();
    assert(is_plain_word_char(w[w.len() - 1]));
    if p.len() == 0 {
        assert(parse_run(pe, st, p) == st);
        assert(st.seg.push(c) == st.seg + w);
    } else {
        assert forall|i: int| 0 <= i < p.len() implies is_plain_word_char(#[trigger] p[i]) by {
            assert(p[i] == w[i]);
        }
        lemma_run_plain_word(pe, st, p);
        assert((st.seg + p).push(c) == st.seg + w);
    }
}

proof fn lemma_plain_word_interpolates_to_itself(pe: ParseEnv, w: Seq<char>)
    requires
        is_plain_word(w),
    ensures
        spec_interpolate(pe.env, pe.pid, pe.home, w) == w,
{
    assert(crate::interp::is_plain_text(w)) by {
        assert forall|i: int| 0 <= i < w.len() implies (#[trigger] w[i]) != '$' && w[i] != '\\'
            && w[i] != '~' by {
            assert(is_plain_word_char(w[i]));
        }
    }
    crate::interp::lemma_interpolate_plain(pe.env, pe.pid, pe.home, w);
}

/// The state between words: no word pending, arguments going to the
/// argument list, no wildcard seen.
pub open spec fn between_words(st: ParseScan) -> bool {
    &&& st.state == CmdState::StartArg
    &&& st.comp == Seq::<char>::empty()
    &&& st.seg == Seq::<char>::empty()
    &&& st.red == RedirectState::NoRedirect
    &&& !st.blob
}

/// A blank after a plain word stores the word.
proof fn lemma_run_blank_after_word(pe: ParseEnv, st: ParseScan, w: Seq<char>)
    requires
        st.state == CmdState::InArg,
        st.comp == Seq::<char>::empty(),
        st.seg == w,
        is_plain_word(w),
        st.red == RedirectState::NoRedirect,
        !st.blob,
    ensures
        parse_run(pe, st, seq![' ']) == (ParseScan {
            state: CmdState::StartArg,
            res: st.res.push((w, false)),
            seg: Seq::empty(),
            ..st
        }),
{
    lemma_plain_word_interpolates_to_itself(pe, w);
    assert(seq![' '].drop_last() == Seq::<char>::empty());
    assert(seq![' '].last() == ' ');
    assert(parse_run(pe, st, Seq::<char>::empty()) == st);
    assert(Seq::<char>::empty() + w == w);
}

proof fn lemma_run_joined_from(pe: ParseEnv, st: ParseScan, ws: Seq<Seq<char>>)
    requires
        between_words(st),
        ws.len() > 0,
        forall|i: int| 0 <= i < ws.len() ==> is_plain_word(#[trigger] ws[i]),
    ensures
        parse_run(pe, st, join_words(ws)) == (ParseScan {
            state: CmdState::InArg,
            res: st.res + plain_args(ws.drop_last()),
            seg: ws.last(),
            asynch: false,
            ..st
        }),
    decreases ws.len(),
{
    assert(is_plain_word(ws[ws.len() - 1]));
    if ws.len() == 1 {
        lemma_run_plain_word(pe, st, ws[0]);
        assert(Seq::<char>::empty() + ws[0] == ws[0]);
        assert(plain_args(ws.drop_last()) =~= Seq::<(Seq<char>, bool)>::empty());
        assert(st.res + Seq::<(Seq<char>, bool)>::empty() == st.res);
    } else {
        let prev = ws.drop_last();
        assert forall|i: int| 0 <= i < prev.len() implies is_plain_word(#[trigger] prev[i]) by {
            assert(prev[i] == ws[i]);
        }
        lemma_run_joined_from(pe, st, prev);
        let last_prev = prev.last();
        assert(is_plain_word(prev[prev.len() - 1]));
        let mid = ParseScan {
            state: CmdState::InArg,
            res: st.res + plain_args(prev.drop_last()),
            seg: last_prev,
            asynch: false,
            ..st
        };
        lemma_parse_run_concat(pe, st, join_words(prev), seq![' ']);
        assert(join_words(prev).push(' ') == join_words(prev) + seq![' ']);
        lemma_run_blank_after_word(pe, mid, last_prev);
        assert(plain_args(prev.drop_last()).push((last_prev, false)) == plain_args(prev));
        assert((st.res + plain_args(prev.drop_last())).push((last_prev, false)) == st.res
            + plain_args(prev));
        let after = ParseScan { state: CmdState::StartArg, res: st.res + plain_args(prev), asynch: false, ..st };
        assert(parse_run(pe, mid, seq![' ']) == after);
        lemma_parse_run_concat(pe, st, join_words(prev).push(' '), ws.last());
        lemma_run_plain_word(pe, after, ws.last());
        assert(Seq::<char>::empty() + ws.last() == ws.last());
    }
}

/// A line of plain words separated by single blanks lexes into exactly
/// those words, as plain arguments, with no pipeline, redirection or
/// background flag.
pub proof fn lemma_parse_plain_words(pe: ParseEnv, ws: Seq<Seq<char>>)
    requires
        ws.len() > 0,
        forall|i: int| 0 <= i < ws.len() ==> is_plain_word(#[trigger] ws[i]),
    ensures
        spec_parse_cmd(pe, join_words(ws)).res == plain_args(ws),
        spec_parse_cmd(pe, join_words(ws)).pipes.len() == 0,
        spec_parse_cmd(pe, join_words(ws)).input.len() == 0,
        spec_parse_cmd(pe, join_words(ws)).output.len() == 0,
        !spec_parse_cmd(pe, join_words(ws)).append,
        !spec_parse_cmd(pe, join_words(ws)).asynch,
{
    lemma_parse_scan_is_run(pe, join_words(ws));
    lemma_run_joined_from(pe, parse_init(), ws);
    assert(Seq::<(Seq<char>, bool)>::empty() + plain_args(ws.drop_last()) == plain_args(
        ws.drop_last(),
    ));
    assert(is_plain_word(ws[ws.len() - 1]));
    lemma_plain_word_interpolates_to_itself(pe, ws.last());
    assert(Seq::<char>::empty() + ws.last() == ws.last());
    assert(plain_args(ws.drop_last()).push((ws.last(), false)) =~= plain_args(ws));
}

/// The state after lexing plain words: the last word still pending.
proof fn lemma_scan_words(pe: ParseEnv, ws: Seq<Seq<char>>)
    requires
        ws.len() > 0,
        forall|i: int| 0 <= i < ws.len() ==> is_plain_word(#[trigger] ws[i]),
    ensures
        parse_run(pe, parse_init(), join_words(ws)) == (ParseScan {
            state: CmdState::InArg,
            res: plain_args(ws.drop_last()),
            seg: ws.last(),
            asynch: false,
            ..parse_init()
        }),
        parse_run(pe, parse_init(), join_words(ws) + seq![' ']) == (ParseScan {
            res: plain_args(ws),
            asynch: false,
            ..parse_init()
        }),
{
    lemma_run_joined_from(pe, parse_init(), ws);
    assert(Seq::<(Seq<char>, bool)>::empty() + plain_args(ws.drop_last()) == plain_args(
        ws.drop_last(),
    ));
    assert(is_plain_word(ws[ws.len() - 1]));
    let mid = ParseScan {
        state: CmdState::InArg,
        res: plain_args(ws.drop_last()),
        seg: ws.last(),
        asynch: false,
        ..parse_init()
    };
    lemma_run_blank_after_word(pe, mid, ws.last());
    lemma_parse_run_concat(pe, parse_init(), join_words(ws), seq![' ']);
    assert(plain_args(ws.drop_last()).push((ws.last(), false)) =~= plain_args(ws));
}

/// Two groups of plain words joined by ` | ` lex into a pipeline: the first
/// group is the earlier stage, the second the command.
pub proof fn lemma_parse_pipeline(pe: ParseEnv, ws1: Seq<Seq<char>>, ws2: Seq<Seq<char>>)
    requires
        ws1.len() > 0,
        ws2.len() > 0,
        forall|i: int| 0 <= i < ws1.len() ==> is_plain_word(#[trigger] ws1[i]),
        forall|i: int| 0 <= i < ws2.len() ==> is_plain_word(#[trigger] ws2[i]),
    ensures
        spec_parse_cmd(pe, join_words(ws1) + seq![' ', '|', ' '] + join_words(ws2)).pipes
            == seq![plain_args(ws1)],
        spec_parse_cmd(pe, join_words(ws1) + seq![' ', '|', ' '] + join_words(ws2)).res
            == plain_args(ws2),
        spec_parse_cmd(pe, join_words(ws1) + seq![' ', '|', ' '] + join_words(ws2)).input.len()
            == 0,
        spec_parse_cmd(pe, join_words(ws1) + seq![' ', '|', ' '] + join_words(ws2)).output.len()
            == 0,
{
    let s = join_words(ws1) + seq![' ', '|', ' '] + join_words(ws2);
    lemma_parse_scan_is_run(pe, s);
    lemma_scan_words(pe, ws1);
    let a = ParseScan { res: plain_args(ws1), asynch: false, ..parse_init() };
    let j1 = join_words(ws1);
    assert(j1 + seq![' ', '|', ' '] == (j1 + seq![' ']) + seq!['|', ' ']);
    lemma_parse_run_concat(pe, parse_init(), j1 + seq![' '], seq!['|', ' ']);
    assert(seq!['|', ' '].drop_last() == seq!['|']);
    assert(seq!['|'].drop_last() == Seq::<char>::empty());
    assert(seq!['|'].last() == '|');
    assert(seq!['|', ' '].last() == ' ');
    assert(parse_run(pe, a, Seq::<char>::empty()) == a);
    let b = ParseScan {
        res: Seq::empty(),
        pipes: seq![plain_args(ws1)],
        asynch: false,
        ..parse_init()
    };
    assert(Seq::<Seq<(Seq<char>, bool)>>::empty().push(plain_args(ws1)) == seq![plain_args(ws1)]);
    assert(parse_run(pe, a, seq!['|']) == b);
    assert(parse_run(pe, a, seq!['|', ' ']) == b);
    lemma_parse_run_concat(pe, parse_init(), j1 + seq![' ', '|', ' '], join_words(ws2));
    lemma_run_joined_from(pe, b, ws2);
    assert(Seq::<(Seq<char>, bool)>::empty() + plain_args(ws2.drop_last()) == plain_args(
        ws2.drop_last(),
    ));
    assert(is_plain_word(ws2[ws2.len() - 1]));
    lemma_plain_word_interpolates_to_itself(pe, ws2.last());
    assert(Seq::<char>::empty() + ws2.last() == ws2.last());
    assert(plain_args(ws2.drop_last()).push((ws2.last(), false)) =~= plain_args(ws2));
}

/// Plain words followed by ` > file` (or ` >> file`) lex into the command
/// and its output file, appending for `>>`.
pub proof fn lemma_parse_output_redirect(
    pe: ParseEnv,
    ws: Seq<Seq<char>>,
    file: Seq<char>,
    append: bool,
)
    requires
        ws.len() > 0,
        forall|i: int| 0 <= i < ws.len() ==> is_plain_word(#[trigger] ws[i]),
        is_plain_word(file),
    ensures
        ({
            let sign = if append { seq!['>', '>', ' '] } else { seq!['>', ' '] };
            let p = spec_parse_cmd(pe, join_words(ws) + seq![' '] + sign + file);
            &&& p.res == plain_args(ws)
            &&& p.output == file
            &&& p.append == append
            &&& p.input.len() == 0
            &&& p.pipes.len() == 0
        }),
{
    let sign = if append { seq!['>', '>', ' '] } else { seq!['>', ' '] };
    let j = join_words(ws) + seq![' '];
    let s = j + sign + file;
    lemma_parse_scan_is_run(pe, s);
    lemma_scan_words(pe, ws);
    let a = ParseScan { res: plain_args(ws), asynch: false, ..parse_init() };
    lemma_parse_run_concat(pe, parse_init(), j, sign);
    lemma_parse_run_concat(pe, parse_init(), j + sign, file);
    let r = ParseScan { red: RedirectState::Output, ..a };
    let ra = ParseScan { append: true, ..r };
    assert(parse_run(pe, a, Seq::<char>::empty()) == a);
    assert(seq!['>'].drop_last() == Seq::<char>::empty());
    assert(seq!['>'].last() == '>');
    assert(parse_run(pe, a, seq!['>']) == r);
    let after = if append { ra } else { r };
    if append {
        assert(seq!['>', '>'].drop_last() == seq!['>']);
        assert(seq!['>', '>'].last() == '>');
        assert(parse_run(pe, a, seq!['>', '>']) == ra);
        assert(seq!['>', '>', ' '].drop_last() == seq!['>', '>']);
        assert(seq!['>', '>', ' '].last() == ' ');
        assert(parse_run(pe, a, sign) == ra);
    } else {
        assert(seq!['>', ' '].drop_last() == seq!['>']);
        assert(seq!['>', ' '].last() == ' ');
        assert(parse_run(pe, a, sign) == r);
    }
    lemma_run_plain_word(pe, after, file);
    lemma_plain_word_interpolates_to_itself(pe, file);
    assert(Seq::<char>::empty() + file == file);
}

/// Plain words followed by ` &` lex into a command run in the background.
pub proof fn lemma_parse_background(pe: ParseEnv, ws: Seq<Seq<char>>)
    requires
        ws.len() > 0,
        forall|i: int| 0 <= i < ws.len() ==> is_plain_word(#[trigger] ws[i]),
    ensures
        spec_parse_cmd(pe, join_words(ws) + seq![' ', '&']).res == plain_args(ws),
        spec_parse_cmd(pe, join_words(ws) + seq![' ', '&']).asynch,
{
    let j = join_words(ws) + seq![' '];
    assert(join_words(ws) + seq![' ', '&'] == j + seq!['&']);
    lemma_parse_scan_is_run(pe, j + seq!['&']);
    lemma_scan_words(pe, ws);
    lemma_parse_run_concat(pe, parse_init(), j, seq!['&']);
    let a = ParseScan { res: plain_args(ws), asynch: false, ..parse_init() };
    assert(parse_run(pe, a, Seq::<char>::empty()) == a);
    assert(seq!['&'].drop_last() == Seq::<char>::empty());
    assert(seq!['&'].last() == '&');
    assert(parse_run(pe, a, seq!['&']) == (ParseScan { asynch: true, ..a }));
}

proof fn lemma_run_quoted(pe: ParseEnv, st: ParseScan, t: Seq<char>)
    requires
        st.state == CmdState::QuotedArg,
        !st.asynch,
        !t.contains('\''),
        !t.contains('\\'),
    ensures
        parse_run(pe, st, t) == (ParseScan {
            comp: st.comp + t,
            ..st
        }),
    decreases t.len(),
{
    if t.len() == 0 {
        assert(st.comp + t == st.comp);
    } else {
        let p = t.drop_last();
        let c = t.last();
        assert(!p.contains('\'') && !p.contains('\\')) by {
            if p.contains('\'') {
                let j = choose|j: int| 0 <= j < p.len() && p[j] == '\'';
                assert(t[j] == '\'');
            }
            if p.contains('\\') {
                let j = choose|j: int| 0 <= j < p.len() && p[j] == '\\';
                assert(t[j] == '\\');
            }
        }
        lemma_run_quoted(pe, st, p);
        assert(t[t.len() - 1] == c);
        assert((st.comp + p).push(c) == st.comp + t);
    }
}

/// Text in single quotes, holding no quote or backslash, is one argument
/// taken literally: blanks, separators, `$` and `~` included.
pub proof fn lemma_parse_single_quoted(pe: ParseEnv, t: Seq<char>)
    requires
        !t.contains('\''),
        !t.contains('\\'),
    ensures
        spec_parse_cmd(pe, seq!['\''] + t + seq!['\'']).res == seq![(t, false)],
        spec_parse_cmd(pe, seq!['\''] + t + seq!['\'']).pipes.len() == 0,
        spec_parse_cmd(pe, seq!['\''] + t + seq!['\'']).input.len() == 0,
        spec_parse_cmd(pe, seq!['\''] + t + seq!['\'']).output.len() == 0,
{
    let s = seq!['\''] + t + seq!['\''];
    lemma_parse_scan_is_run(pe, s);
    lemma_parse_run_concat(pe, parse_init(), seq!['\''] + t, seq!['\'']);
    lemma_parse_run_concat(pe, parse_init(), seq!['\''], t);
    assert(seq!['\''].drop_last() == Seq::<char>::empty());
    assert(seq!['\''].last() == '\'');
    assert(parse_run(pe, parse_init(), Seq::<char>::empty()) == parse_init());
    let q = ParseScan { state: CmdState::QuotedArg, blob: false, asynch: false, ..parse_init() };
    assert(parse_run(pe, parse_init(), seq!['\'']) == q);
    lemma_run_quoted(pe, q, t);
    let qt = ParseScan { comp: t, ..q };
    assert(Seq::<char>::empty() + t == t);
    assert(parse_run(pe, q, t) == qt);
    assert(parse_run(pe, qt, Seq::<char>::empty()) == qt);
    let done = ParseScan { state: CmdState::InArg, ..qt };
    assert(parse_run(pe, qt, seq!['\'']) == done);
    assert(spec_interpolate(pe.env, pe.pid, pe.home, Seq::<char>::empty()) == Seq::<char>::empty());
    assert(t + Seq::<char>::empty() == t);
    assert(Seq::<(Seq<char>, bool)>::empty().push((t, false)) == seq![(t, false)]);
}

proof fn lemma_run_dbl_quoted(pe: ParseEnv, st: ParseScan, t: Seq<char>)
    requires
        st.state == CmdState::DblQuotedArg,
        !st.asynch,
        !t.contains('"'),
        !t.contains('\\'),
        !t.contains('*'),
    ensures
        parse_run(pe, st, t) == (ParseScan { seg: st.seg + t, ..st }),
    decreases t.len(),
{
    if t.len() == 0 {
        assert(st.seg + t == st.seg);
    } else {
        let p = t.drop_last();
        let c = t.last();
        assert(!p.contains('"') && !p.contains('\\') && !p.contains('*')) by {
            if p.contains('"') {
                let j = choose|j: int| 0 <= j < p.len() && p[j] == '"';
                assert(t[j] == '"');
            }
            if p.contains('\\') {
                let j = choose|j: int| 0 <= j < p.len() && p[j] == '\\';
                assert(t[j] == '\\');
            }
            if p.contains('*') {
                let j = choose|j: int| 0 <= j < p.len() && p[j] == '*';
                assert(t[j] == '*');
            }
        }
        lemma_run_dbl_quoted(pe, st, p);
        assert(t[t.len() - 1] == c);
        assert((st.seg + p).push(c) == st.seg + t);
    }
}

/// Plain text followed by single-quoted text, holding no quote or
/// backslash, is one argument: the plain text, then the quoted text, in the
/// order typed.
pub proof fn lemma_parse_plain_then_quoted(pe: ParseEnv, u: Seq<char>, t: Seq<char>)
    requires
        is_plain_word(u),
        !t.contains('\''),
        !t.contains('\\'),
    ensures
        spec_parse_cmd(pe, u + seq!['\''] + t + seq!['\'']).res == seq![(u + t, false)],
        spec_parse_cmd(pe, u + seq!['\''] + t + seq!['\'']).pipes.len() == 0,
        spec_parse_cmd(pe, u + seq!['\''] + t + seq!['\'']).input.len() == 0,
        spec_parse_cmd(pe, u + seq!['\''] + t + seq!['\'']).output.len() == 0,
{
    let q1 = seq!['\''];
    let s = u + q1 + t + q1;
    lemma_parse_scan_is_run(pe, s);
    lemma_parse_run_concat(pe, parse_init(), u + q1 + t, q1);
    lemma_parse_run_concat(pe, parse_init(), u + q1, t);
    lemma_parse_run_concat(pe, parse_init(), u, q1);
    lemma_run_plain_word(pe, parse_init(), u);
    assert(Seq::<char>::empty() + u == u);
    let a = ParseScan { state: CmdState::InArg, seg: u, asynch: false, ..parse_init() };
    assert(parse_run(pe, parse_init(), u) == a);
    lemma_plain_word_interpolates_to_itself(pe, u);
    assert(q1.drop_last() == Seq::<char>::empty());
    assert(q1.last() == '\'');
    assert(parse_run(pe, a, Seq::<char>::empty()) == a);
    let q = ParseScan { state: CmdState::QuotedArg, comp: u, seg: Seq::empty(), ..a };
    assert(parse_run(pe, a, q1) == q);
    lemma_run_quoted(pe, q, t);
    let qt = ParseScan { comp: u + t, ..q };
    assert(parse_run(pe, q, t) == qt);
    assert(parse_run(pe, qt, Seq::<char>::empty()) == qt);
    let done = ParseScan { state: CmdState::InArg, ..qt };
    assert(parse_run(pe, qt, q1) == done);
    assert(spec_interpolate(pe.env, pe.pid, pe.home, Seq::<char>::empty()) == Seq::<char>::empty());
    assert((u + t) + Seq::<char>::empty() == u + t);
    assert(Seq::<(Seq<char>, bool)>::empty().push((u + t, false)) == seq![(u + t, false)]);
}

/// Single-quoted text, holding no quote or backslash, followed by plain
/// text is one argument: the quoted text, then the plain text.
pub proof fn lemma_parse_quoted_then_plain(pe: ParseEnv, t: Seq<char>, u: Seq<char>)
    requires
        is_plain_word(u),
        !t.contains('\''),
        !t.contains('\\'),
    ensures
        spec_parse_cmd(pe, seq!['\''] + t + seq!['\''] + u).res == seq![(t + u, false)],
        spec_parse_cmd(pe, seq!['\''] + t + seq!['\''] + u).pipes.len() == 0,
        spec_parse_cmd(pe, seq!['\''] + t + seq!['\''] + u).input.len() == 0,
        spec_parse_cmd(pe, seq!['\''] + t + seq!['\''] + u).output.len() == 0,
{
    let q1 = seq!['\''];
    let s = q1 + t + q1 + u;
    lemma_parse_scan_is_run(pe, s);
    lemma_parse_run_concat(pe, parse_init(), q1 + t + q1, u);
    lemma_parse_run_concat(pe, parse_init(), q1 + t, q1);
    lemma_parse_run_concat(pe, parse_init(), q1, t);
    assert(q1.drop_last() == Seq::<char>::empty());
    assert(q1.last() == '\'');
    assert(parse_run(pe, parse_init(), Seq::<char>::empty()) == parse_init());
    let q = ParseScan { state: CmdState::QuotedArg, blob: false, asynch: false, ..parse_init() };
    assert(parse_run(pe, parse_init(), q1) == q);
    lemma_run_quoted(pe, q, t);
    let qt = ParseScan { comp: t, ..q };
    assert(Seq::<char>::empty() + t == t);
    assert(parse_run(pe, q, t) == qt);
    assert(parse_run(pe, qt, Seq::<char>::empty()) == qt);
    let closed = ParseScan { state: CmdState::InArg, ..qt };
    assert(parse_run(pe, qt, q1) == closed);
    lemma_run_plain_word(pe, closed, u);
    assert(Seq::<char>::empty() + u == u);
    lemma_plain_word_interpolates_to_itself(pe, u);
    assert(Seq::<(Seq<char>, bool)>::empty().push((t + u, false)) == seq![(t + u, false)]);
}

/// Text in double quotes, holding no quote, backslash or `*`, is one
/// argument: its variables and home directory references interpolated,
/// blanks and separators kept.
pub proof fn lemma_parse_double_quoted(pe: ParseEnv, t: Seq<char>)
    requires
        !t.contains('"'),
        !t.contains('\\'),
        !t.contains('*'),
    ensures
        spec_parse_cmd(pe, seq!['"'] + t + seq!['"']).res == seq![
            (spec_interpolate(pe.env, pe.pid, pe.home, t), false),
        ],
        spec_parse_cmd(pe, seq!['"'] + t + seq!['"']).pipes.len() == 0,
        spec_parse_cmd(pe, seq!['"'] + t + seq!['"']).input.len() == 0,
        spec_parse_cmd(pe, seq!['"'] + t + seq!['"']).output.len() == 0,
{
    let s = seq!['"'] + t + seq!['"'];
    lemma_parse_scan_is_run(pe, s);
    lemma_parse_run_concat(pe, parse_init(), seq!['"'] + t, seq!['"']);
    lemma_parse_run_concat(pe, parse_init(), seq!['"'], t);
    assert(seq!['"'].drop_last() == Seq::<char>::empty());
    assert(seq!['"'].last() == '"');
    assert(parse_run(pe, parse_init(), Seq::<char>::empty()) == parse_init());
    let q = ParseScan { state: CmdState::DblQuotedArg, blob: false, asynch: false, ..parse_init() };
    assert(parse_run(pe, parse_init(), seq!['"']) == q);
    lemma_run_dbl_quoted(pe, q, t);
    let qt = ParseScan { seg: t, ..q };
    assert(Seq::<char>::empty() + t == t);
    assert(parse_run(pe, q, t) == qt);
    assert(parse_run(pe, qt, Seq::<char>::empty()) == qt);
    let it = spec_interpolate(pe.env, pe.pid, pe.home, t);
    assert(Seq::<char>::empty() + it == it);
    let done = ParseScan { state: CmdState::InArg, comp: it, seg: Seq::empty(), ..qt };
    assert(parse_run(pe, qt, seq!['"']) == done);
    assert(spec_interpolate(pe.env, pe.pid, pe.home, Seq::<char>::empty()) == Seq::<char>::empty());
    assert(it + Seq::<char>::empty() == it);
    assert(Seq::<(Seq<char>, bool)>::empty().push((it, false)) == seq![(it, false)]);
}

/// A character that escaping and lexing give back: no quote, backslash,
/// `~`, `*`, or separator that escaping leaves bare.
pub open spec fn survives_escaping(c: char) -> bool {
    c != '"' && c != '\'' && c != '\\' && c != '~' && c != '*' && c != '\t' && c != '\r' && c
        != '\n' && c != '\u{00a0}' && c != '\u{000C}' && c != '\u{000B}'
}

/// The unquoted segment the lexer collects from an escaped text: each
/// character itself, an escaped `$` kept escaped for interpolation.
pub open spec fn escaped_segment(w: Seq<char>) -> Seq<char>
    decreases w.len(),
{
    if w.len() == 0 {
        Seq::empty()
    } else if w.last() == '$' {
        escaped_segment(w.drop_last()).push('\\').push('$')
    } else {
        escaped_segment(w.drop_last()).push(w.last())
    }
}

proof fn lemma_lex_escaped(pe: ParseEnv, w: Seq<char>)
    requires
        w.len() > 0,
        forall|i: int| 0 <= i < w.len() ==> survives_escaping(#[trigger] w[i]),
    ensures
        parse_run(pe, parse_init(), crate::escape::spec_esc_blanks(w)) == (ParseScan {
            state: CmdState::InArg,
            seg: escaped_segment(w),
            asynch: false,
            ..parse_init()
        }),
    decreases w.len(),
{
    let p = w.drop_last();
    let c = w.last();
    assert(survives_escaping(w[w.len() - 1]));
    assert forall|i: int| 0 <= i < p.len() implies survives_escaping(#[trigger] p[i]) by {
        assert(p[i] == w[i]);
    }
    let e = crate::escape::spec_esc_blanks(p);
    let st = if p.len() == 0 {
        parse_init()
    } else {
        lemma_lex_escaped(pe, p);
        ParseScan { state: CmdState::InArg, seg: escaped_segment(p), asynch: false, ..parse_init() }
    };
    assert(parse_run(pe, parse_init(), e) == st);
    assert(st.seg == escaped_segment(p)) by {
        if p.len() == 0 {
            assert(e == Seq::<char>::empty());
        }
    }
    if crate::escape::needs_escape(c) {
        lemma_parse_run_concat(pe, parse_init(), e, seq!['\\', c]);
        assert(e.push('\\').push(c) == e + seq!['\\', c]);
        assert(seq!['\\', c].drop_last() == seq!['\\']);
        assert(seq!['\\'].drop_last() == Seq::<char>::empty());
        assert(seq!['\\'].last() == '\\');
        assert(seq!['\\', c].last() == c);
        assert(parse_run(pe, st, Seq::<char>::empty()) == st);
        let esc_st = ParseScan { state: CmdState::Esc, asynch: false, ..st };
        assert(parse_run(pe, st, seq!['\\']) == esc_st);
        if c == '$' {
            assert(!is_separator(c));
        }
    } else {
        lemma_parse_run_concat(pe, parse_init(), e, seq![c]);
        assert(e.push(c) == e + seq![c]);
        assert(seq![c].drop_last() == Seq::<char>::empty());
        assert(seq![c].last() == c);
        assert(parse_run(pe, st, Seq::<char>::empty()) == st);
        assert(!is_separator(c));
    }
}

proof fn lemma_interpolate_escaped_segment(
    pe: ParseEnv,
    st: crate::interp::InterpScan,
    w: Seq<char>,
)
    requires
        st.0 == EnvExpState::TildeCan || st.0 == EnvExpState::InArg,
        st.2 == Seq::<char>::empty(),
        forall|i: int| 0 <= i < w.len() ==> survives_escaping(#[trigger] w[i]),
    ensures
        crate::interp::interp_run(pe.env, pe.pid, pe.home, st, escaped_segment(w)).0
            == EnvExpState::TildeCan || crate::interp::interp_run(
            pe.env,
            pe.pid,
            pe.home,
            st,
            escaped_segment(w),
        ).0 == EnvExpState::InArg,
        crate::interp::interp_run(pe.env, pe.pid, pe.home, st, escaped_segment(w)).1 == st.1 + w,
        crate::interp::interp_run(pe.env, pe.pid, pe.home, st, escaped_segment(w)).2
            == Seq::<char>::empty(),
    decreases w.len(),
{
    if w.len() == 0 {
        assert(st.1 + w == st.1);
    } else {
        let p = w.drop_last();
        let c = w.last();
        assert(survives_escaping(w[w.len() - 1]));
        assert forall|i: int| 0 <= i < p.len() implies survives_escaping(#[trigger] p[i]) by {
            assert(p[i] == w[i]);
        }
        lemma_interpolate_escaped_segment(pe, st, p);
        let mid = crate::interp::interp_run(pe.env, pe.pid, pe.home, st, escaped_segment(p));
        assert(mid.1 == st.1 + p);
        if c == '$' {
            crate::interp::lemma_run_concat(pe.env, pe.pid, pe.home, st, escaped_segment(p), seq!['\\', '$']);
            assert(escaped_segment(p).push('\\').push('$') == escaped_segment(p) + seq!['\\', '$']);
            assert(seq!['\\', '$'].drop_last() == seq!['\\']);
            assert(seq!['\\'].drop_last() == Seq::<char>::empty());
            assert(seq!['\\'].last() == '\\');
            assert(seq!['\\', '$'].last() == '$');
            assert(crate::interp::interp_run(pe.env, pe.pid, pe.home, mid, Seq::<char>::empty()) == mid);
            let m1 = (EnvExpState::Esc, mid.1, mid.2);
            assert(crate::interp::interp_run(pe.env, pe.pid, pe.home, mid, seq!['\\']) == m1);
            assert(crate::interp::interp_run(pe.env, pe.pid, pe.home, mid, seq!['\\', '$']) == (
                EnvExpState::InArg,
                mid.1.push('$'),
                mid.2,
            ));
            assert(escaped_segment(w) == escaped_segment(p) + seq!['\\', '$']);
        } else {
            crate::interp::lemma_run_concat(pe.env, pe.pid, pe.home, st, escaped_segment(p), seq![c]);
            assert(escaped_segment(p).push(c) == escaped_segment(p) + seq![c]);
            assert(seq![c].drop_last() == Seq::<char>::empty());
            assert(seq![c].last() == c);
            assert(crate::interp::interp_run(pe.env, pe.pid, pe.home, mid, Seq::<char>::empty()) == mid);
            assert(escaped_segment(w) == escaped_segment(p) + seq![c]);
            let r = crate::interp::interp_run(pe.env, pe.pid, pe.home, mid, seq![c]);
            assert(r.1 == mid.1.push(c));
            assert(r.2 == mid.2);
        }
        assert((st.1 + p).push(c) == st.1 + w);
    }
}

/// A completed name, escaped as the terminal sends it back, lexes into
/// that name as one argument again, for every name holding no quote,
/// backslash, `~`, `*` or white space other than the blank.
pub proof fn lemma_escaped_word_lexes_back(pe: ParseEnv, w: Seq<char>)
    requires
        w.len() > 0,
        forall|i: int| 0 <= i < w.len() ==> survives_escaping(#[trigger] w[i]),
    ensures
        spec_parse_cmd(pe, crate::escape::spec_esc_blanks(w)).res == seq![(w, false)],
        spec_parse_cmd(pe, crate::escape::spec_esc_blanks(w)).pipes.len() == 0,
        spec_parse_cmd(pe, crate::escape::spec_esc_blanks(w)).input.len() == 0,
        spec_parse_cmd(pe, crate::escape::spec_esc_blanks(w)).output.len() == 0,
        !spec_parse_cmd(pe, crate::escape::spec_esc_blanks(w)).asynch,
{
    let e = crate::escape::spec_esc_blanks(w);
    lemma_parse_scan_is_run(pe, e);
    lemma_lex_escaped(pe, w);
    let init = (EnvExpState::TildeCan, Seq::<char>::empty(), Seq::<char>::empty());
    crate::interp::lemma_scan_is_run(pe.env, pe.pid, pe.home, escaped_segment(w));
    lemma_interpolate_escaped_segment(pe, init, w);
    assert(Seq::<char>::empty() + w == w);
    assert(spec_interpolate(pe.env, pe.pid, pe.home, escaped_segment(w)) == w);
    assert(Seq::<(Seq<char>, bool)>::empty().push((w, false)) == seq![(w, false)]);
}

} // verus!
