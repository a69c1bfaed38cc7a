//! The decisions of the terminal session loop: what a block of input is,
//! which built-in command a line names, the built-ins that only change the
//! session's environment and aliases, and how an external command runs.
use vstd::prelude::*;
use crate::text::{text_is, split_once, trim, trim_quotes, split_ascii_whitespace,
    spec_split_once, spec_trim, spec_trim_quotes, spec_ascii_words};
use crate::strmap::StrMap;
use crate::wildcard::views;
use crate::complete::{platform_starts_with, spec_starts_with};

verus! {

/// Whether a command line asks for completion: it ends in a tab.
pub fn ends_with_tab(line: &str) -> (res: bool)
    ensures
        res == (line@.len() > 0 && line@.last() == '\t'),
{
    let v = crate::text::chars_of(line);
    v.len() > 0 && v[v.len() - 1] == '\t'
}

/// What a block read from the client is.
#[derive(Clone, Copy, Debug, PartialEq, Eq, Structural)]
pub enum Block {
    /// The end-of-session marker `FF FF FF 04`.
    Quit,
    /// A lone Ctrl-C.
    Interrupt,
    /// A command line.
    Text,
}

pub open spec fn spec_classify_block(buf: Seq<u8>) -> Block {
    if buf.len() >= 4 && buf[0] == 255 && buf[1] == 255 && buf[2] == 255 && buf[3] == 4 {
        Block::Quit
    } else if buf.len() == 1 && buf[0] == 3 {
        Block::Interrupt
    } else {
        Block::Text
    }
}

/// Classifies a block read from the client.
pub fn classify_block(buf: &[u8]) -> (res: Block)
    ensures
        res == spec_classify_block(buf@),
{
    if buf.len() >= 4 && buf[0] == 255 && buf[1] == 255 && buf[2] == 255 && buf[3] == 4 {
        Block::Quit
    } else if buf.len() == 1 && buf[0] == 3 {
        Block::Interrupt
    } else {
        Block::Text
    }
}

/// The variables of the CGI request that child processes do not inherit.
pub open spec fn is_request_var(name: Seq<char>) -> bool {
    name == "GATEWAY_INTERFACE"@ || name == "QUERY_STRING"@ || name == "REMOTE_ADDR"@ || name
        == "REMOTE_HOST"@ || name == "REQUEST_METHOD"@ || name == "SERVER_PROTOCOL"@ || name
        == "SERVER_SOFTWARE"@ || name == "PATH_INFO"@ || name == "PATH_TRANSLATED"@ || name
        == "SCRIPT_NAME"@ || name == "REMOTE_IDENT"@ || name == "SERVER_NAME"@ || name
        == "SERVER_PORT"@ || name == "CONTENT_LENGTH"@ || name == "CONTENT_TYPE"@ || name
        == "AUTH_TYPE"@ || name == "REMOTE_USER"@
}

/// Whether child processes inherit the variable `name` of the terminal's own
/// environment: not the CGI request variables, the `HTTP_` headers, `_` or
/// `PWD`.
pub open spec fn spec_is_inherited_var(name: Seq<char>) -> bool {
    !is_request_var(name) && !spec_starts_with(name, "HTTP_"@, false) && name != "_"@ && name
        != "PWD"@
}

pub fn is_inherited_var(name: &str) -> (res: bool)
    ensures
        res == spec_is_inherited_var(name@),
{
    let n = String::from_str(name);
    let request = text_is(&n, "GATEWAY_INTERFACE") || text_is(&n, "QUERY_STRING") || text_is(
        &n,
        "REMOTE_ADDR",
    ) || text_is(&n, "REMOTE_HOST") || text_is(&n, "REQUEST_METHOD") || text_is(
        &n,
        "SERVER_PROTOCOL",
    ) || text_is(&n, "SERVER_SOFTWARE") || text_is(&n, "PATH_INFO") || text_is(
        &n,
        "PATH_TRANSLATED",
    ) || text_is(&n, "SCRIPT_NAME") || text_is(&n, "REMOTE_IDENT") || text_is(&n, "SERVER_NAME")
        || text_is(&n, "SERVER_PORT") || text_is(&n, "CONTENT_LENGTH") || text_is(
        &n,
        "CONTENT_TYPE",
    ) || text_is(&n, "AUTH_TYPE") || text_is(&n, "REMOTE_USER");
    !request && !platform_starts_with(name, "HTTP_", false) && !text_is(&n, "_") && !text_is(
        &n,
        "PWD",
    )
}

/// The built-in commands of the terminal.
#[derive(Clone, Copy, Debug, PartialEq, Eq, Structural)]
pub enum Builtin {
    Dir,
    Pwd,
    Cd,
    Del,
    Type,
    CopyRen,
    Echo,
    MkDir,
    RmDir,
    Export,
    Unset,
    SetVar,
    Alias,
    Version,
    External,
}

/// The built-in a command name selects; `windows` enables the commands of
/// the Windows command prompt, some only without an output redirection.
pub open spec fn spec_classify_command(name: Seq<char>, windows: bool, out_empty: bool) -> Builtin {
    if name == "dir"@ && windows && out_empty {
        Builtin::Dir
    } else if name == "pwd"@ {
        Builtin::Pwd
    } else if name == "cd"@ {
        Builtin::Cd
    } else if name == "del"@ && windows {
        Builtin::Del
    } else if name == "type"@ && windows && out_empty {
        Builtin::Type
    } else if (name == "copy"@ || name == "ren"@) && windows {
        Builtin::CopyRen
    } else if name == "echo"@ && windows && out_empty {
        Builtin::Echo
    } else if (name == "md"@ || name == "mkdir"@) && windows {
        Builtin::MkDir
    } else if name == "rmdir"@ && windows {
        Builtin::RmDir
    } else if name == "export"@ {
        Builtin::Export
    } else if name == "unset"@ {
        Builtin::Unset
    } else if name == "set"@ && windows {
        Builtin::SetVar
    } else if name == "alias"@ {
        Builtin::Alias
    } else if name == "ver!"@ {
        Builtin::Version
    } else {
        Builtin::External
    }
}

pub fn classify_command(name: &String, windows: bool, out_empty: bool) -> (res: Builtin)
    ensures
        res == spec_classify_command(name@, windows, out_empty),
{
    if text_is(name, "dir") && windows && out_empty {
        Builtin::Dir
    } else if text_is(name, "pwd") {
        Builtin::Pwd
    } else if text_is(name, "cd") {
        Builtin::Cd
    } else if text_is(name, "del") && windows {
        Builtin::Del
    } else if text_is(name, "type") && windows && out_empty {
        Builtin::Type
    } else if (text_is(name, "copy") || text_is(name, "ren")) && windows {
        Builtin::CopyRen
    } else if text_is(name, "echo") && windows && out_empty {
        Builtin::Echo
    } else if (text_is(name, "md") || text_is(name, "mkdir")) && windows {
        Builtin::MkDir
    } else if text_is(name, "rmdir") && windows {
        Builtin::RmDir
    } else if text_is(name, "export") {
        Builtin::Export
    } else if text_is(name, "unset") {
        Builtin::Unset
    } else if text_is(name, "set") && windows {
        Builtin::SetVar
    } else if text_is(name, "alias") {
        Builtin::Alias
    } else if text_is(name, "ver!") {
        Builtin::Version
    } else {
        Builtin::External
    }
}

/// How an external command runs.
#[derive(Clone, Copy, Debug, PartialEq, Eq, Structural)]
pub enum ExecMode {
    /// Detached, with no input or output.
    Background,
    /// Attached to the terminal.
    Foreground,
    /// With its output written to the output file.
    ToFile,
    /// Fed the input file.
    FromFile,
    /// As the last stage of a pipeline.
    Pipeline,
}

pub open spec fn spec_plan_external(
    piped_empty: bool,
    in_empty: bool,
    out_empty: bool,
    background: bool,
) -> ExecMode {
    if piped_empty {
        if in_empty && out_empty {
            if background {
                ExecMode::Background
            } else {
                ExecMode::Foreground
            }
        } else if in_empty {
            ExecMode::ToFile
        } else {
            ExecMode::FromFile
        }
    } else {
        ExecMode::Pipeline
    }
}

/// Chooses how an external command runs: a pipeline when there are earlier
/// stages, else by its redirections, else in the background where the line
/// ended in `&`.
pub fn plan_external(piped_empty: bool, in_empty: bool, out_empty: bool, background: bool) -> (res:
    ExecMode)
    ensures
        res == spec_plan_external(piped_empty, in_empty, out_empty, background),
{
    if piped_empty {
        if in_empty && out_empty {
            if background {
                ExecMode::Background
            } else {
                ExecMode::Foreground
            }
        } else if in_empty {
            ExecMode::ToFile
        } else {
            ExecMode::FromFile
        }
    } else {
        ExecMode::Pipeline
    }
}

/// The end of a reply to the client.
pub open spec fn form_feed() -> Seq<char> {
    "\u{000C}"@
}

/// `name=value` lines for the entries of an environment, in order.
pub open spec fn env_listing(pairs: Seq<(Seq<char>, Seq<char>)>) -> Seq<char>
    decreases pairs.len(),
{
    if pairs.len() == 0 {
        Seq::empty()
    } else {
        env_listing(pairs.drop_last()) + pairs.last().0 + "="@ + pairs.last().1 + "\n"@
    }
}

/// Words joined by single blanks.
pub open spec fn spec_join_blank(ws: Seq<Seq<char>>) -> Seq<char>
    decreases ws.len(),
{
    if ws.len() == 0 {
        Seq::empty()
    } else if ws.len() == 1 {
        ws[0]
    } else {
        spec_join_blank(ws.drop_last()) + " "@ + ws.last()
    }
}

/// `alias name='words'` lines for the aliases, in order.
pub open spec fn alias_listing(pairs: Seq<(Seq<char>, Seq<Seq<char>>)>) -> Seq<char>
    decreases pairs.len(),
{
    if pairs.len() == 0 {
        Seq::empty()
    } else {
        alias_listing(pairs.drop_last()) + "alias "@ + pairs.last().0 + "='"@ + spec_join_blank(pairs.last().1) + "'\n"@
    }
}

/// `export`: the new environment and the reply.
pub open spec fn spec_export(env: Map<Seq<char>, Seq<char>>, args: Seq<Seq<char>>) -> (
    Map<Seq<char>, Seq<char>>,
    Seq<char>,
) {
    if args.len() != 2 {
        (env, "A parameter in the form - name=value has to be specified\u{000C}"@)
    } else {
        match spec_split_once(args[1], '=') {
            Some((name, value)) => (env.insert(name, value), form_feed()),
            None => (env, "The parameter has to be in the name=value form\u{000C}"@),
        }
    }
}

/// `unset`: the new environment and the reply.
pub open spec fn spec_unset(env: Map<Seq<char>, Seq<char>>, args: Seq<Seq<char>>) -> (
    Map<Seq<char>, Seq<char>>,
    Seq<char>,
) {
    if args.len() != 2 {
        (env, "Name of an environment variable is not specified\u{000C}"@)
    } else {
        (env.remove(args[1]), form_feed())
    }
}

/// `set` of the Windows prompt: the new environment and the reply, with
/// `pairs` the entries of the environment in order.
pub open spec fn spec_set_var(
    env: Map<Seq<char>, Seq<char>>,
    pairs: Seq<(Seq<char>, Seq<char>)>,
    args: Seq<Seq<char>>,
) -> (Map<Seq<char>, Seq<char>>, Seq<char>) {
    if args.len() == 1 {
        (env, env_listing(pairs) + form_feed())
    } else if args.len() == 2 {
        match spec_split_once(args[1], '=') {
            Some((name, value)) => (
                if value.len() == 0 {
                    env.remove(name)
                } else {
                    env.insert(name, value)
                },
                form_feed(),
            ),
            None => (env, "The parameter has to be in a form: name=value\u{000C}"@),
        }
    } else {
        (env, "Invalid number of parameters\u{000C}"@)
    }
}

/// `alias`: the new aliases and the reply, with `pairs` the aliases in
/// order.
pub open spec fn spec_alias(
    aliases: Map<Seq<char>, Seq<Seq<char>>>,
    pairs: Seq<(Seq<char>, Seq<Seq<char>>)>,
    args: Seq<Seq<char>>,
) -> (Map<Seq<char>, Seq<Seq<char>>>, Seq<char>) {
    if args.len() == 1 {
        (aliases, alias_listing(pairs) + form_feed())
    } else if args.len() == 2 && spec_split_once(args[1], '=') is Some {
        let (name, value) = spec_split_once(args[1], '=').unwrap();
        (aliases.insert(spec_trim(name), spec_ascii_words(spec_trim_quotes(value))), form_feed())
    } else {
        (aliases, "Invalid number of arguments of alias\u{000C}"@)
    }
}

/// What the terminal does for a command line.
pub enum Action {
    /// Send this reply; the command was handled.
    Reply(String),
    /// Send the terminal's version.
    Version,
    /// List a directory (names only, or in detail); the working directory
    /// where no path is given.
    ListDir { names_only: bool, target: Option<String> },
    /// Send the working directory.
    ShowCwd,
    /// Change the working directory; to the home directory where no path is
    /// given.
    ChangeDir(Option<String>),
    /// Delete the files a pattern names.
    Delete(String),
    /// Send the contents of the files a pattern names.
    TypeFile(String),
    /// Copy the files a pattern names to a destination.
    Copy(String, String),
    /// Rename the files a pattern names to a destination.
    Rename(String, String),
    /// Send a text back; nothing where the command had not exactly one
    /// argument.
    Echo(Option<String>),
    /// Create a directory.
    MakeDir(String),
    /// Remove a directory with its contents.
    RemoveDir(String),
    /// Run the command as a program, in this way.
    Run(ExecMode, Vec<String>),
}

/// The view of an action.
pub enum ActionView {
    Reply(Seq<char>),
    Version,
    ListDir(bool, Option<Seq<char>>),
    ShowCwd,
    ChangeDir(Option<Seq<char>>),
    Delete(Seq<char>),
    TypeFile(Seq<char>),
    Copy(Seq<char>, Seq<char>),
    Rename(Seq<char>, Seq<char>),
    Echo(Option<Seq<char>>),
    MakeDir(Seq<char>),
    RemoveDir(Seq<char>),
    Run(ExecMode, Seq<Seq<char>>),
}

pub open spec fn opt_view(o: Option<String>) -> Option<Seq<char>> {
    match o {
        Some(s) => Some(s@),
        None => None,
    }
}

pub open spec fn action_view(a: Action) -> ActionView {
    match a {
        Action::Reply(m) => ActionView::Reply(m@),
        Action::Version => ActionView::Version,
        Action::ListDir { names_only, target } => ActionView::ListDir(names_only, opt_view(target)),
        Action::ShowCwd => ActionView::ShowCwd,
        Action::ChangeDir(t) => ActionView::ChangeDir(opt_view(t)),
        Action::Delete(p) => ActionView::Delete(p@),
        Action::TypeFile(p) => ActionView::TypeFile(p@),
        Action::Copy(a, b) => ActionView::Copy(a@, b@),
        Action::Rename(a, b) => ActionView::Rename(a@, b@),
        Action::Echo(t) => ActionView::Echo(opt_view(t)),
        Action::MakeDir(p) => ActionView::MakeDir(p@),
        Action::RemoveDir(p) => ActionView::RemoveDir(p@),
        Action::Run(m, c) => ActionView::Run(m, views(c@)),
    }
}

/// The action for a command (its aliases already expanded), and the
/// session's environment and aliases after it: the built-ins that only
/// change the session act at once, the others become actions, and an
/// external command is recorded as `_` in the environment.
pub open spec fn spec_dispatch(
    env: Map<Seq<char>, Seq<char>>,
    env_pairs: Seq<(Seq<char>, Seq<char>)>,
    aliases: Map<Seq<char>, Seq<Seq<char>>>,
    alias_pairs: Seq<(Seq<char>, Seq<Seq<char>>)>,
    cmd: Seq<Seq<char>>,
    piped_empty: bool,
    in_empty: bool,
    out_empty: bool,
    background: bool,
    windows: bool,
) -> (ActionView, Map<Seq<char>, Seq<char>>, Map<Seq<char>, Seq<Seq<char>>>) {
    let n = cmd.len();
    match spec_classify_command(cmd[0], windows, out_empty) {
        Builtin::Dir => {
            let (names_only, at) = crate::process::spec_dir_args(cmd);
            (
                ActionView::ListDir(names_only, match at {
                    Some(i) => Some(cmd[i]),
                    None => None,
                }),
                env,
                aliases,
            )
        },
        Builtin::Pwd => (ActionView::ShowCwd, env, aliases),
        Builtin::Cd => (
            ActionView::ChangeDir(if n == 1 {
                None
            } else {
                Some(cmd[1])
            }),
            env,
            aliases,
        ),
        Builtin::Del => (
            if n == 1 {
                ActionView::Reply("No name specified\u{000C}"@)
            } else {
                ActionView::Delete(cmd[1])
            },
            env,
            aliases,
        ),
        Builtin::Type => (
            if n == 1 {
                ActionView::Reply("The syntax of the command is incorrect.\u{000C}"@)
            } else {
                ActionView::TypeFile(cmd[1])
            },
            env,
            aliases,
        ),
        Builtin::CopyRen => (
            if n != 3 {
                ActionView::Reply("Only one source and destination have to be provided\u{000C}"@)
            } else if cmd[0] == "copy"@ {
                ActionView::Copy(cmd[1], cmd[2])
            } else {
                ActionView::Rename(cmd[1], cmd[2])
            },
            env,
            aliases,
        ),
        Builtin::Echo => (
            ActionView::Echo(if n == 2 {
                Some(cmd[1])
            } else {
                None
            }),
            env,
            aliases,
        ),
        Builtin::MkDir => (
            if n == 1 {
                ActionView::Reply("No name specified\u{000C}"@)
            } else {
                ActionView::MakeDir(cmd[1])
            },
            env,
            aliases,
        ),
        Builtin::RmDir => (
            if n == 1 {
                ActionView::Reply("No name specified\u{000C}"@)
            } else {
                ActionView::RemoveDir(cmd[1])
            },
            env,
            aliases,
        ),
        Builtin::Export => {
            let (e, m) = spec_export(env, cmd);
            (ActionView::Reply(m), e, aliases)
        },
        Builtin::Unset => {
            let (e, m) = spec_unset(env, cmd);
            (ActionView::Reply(m), e, aliases)
        },
        Builtin::SetVar => {
            let (e, m) = spec_set_var(env, env_pairs, cmd);
            (ActionView::Reply(m), e, aliases)
        },
        Builtin::Alias => {
            let (a, m) = spec_alias(aliases, alias_pairs, cmd);
            (ActionView::Reply(m), env, a)
        },
        Builtin::Version => (ActionView::Version, env, aliases),
        Builtin::External => (
            ActionView::Run(spec_plan_external(piped_empty, in_empty, out_empty, background), cmd),
            env.insert("_"@, cmd[0]),
            aliases,
        ),
    }
}

/// The environment and aliases of a terminal session.
pub struct Session {
    /// The environment passed to child processes.
    pub env: StrMap<String>,
    /// The command aliases.
    pub aliases: StrMap<Vec<String>>,
}

fn join_blank(ws: &Vec<String>) -> (res: String)
    ensures
        res@ == spec_join_blank(views(ws@)),
{
    let mut res = String::new();
    let mut i: usize = 0;
    while i < ws.len()
        invariant
            i <= ws.len(),
            res@ == spec_join_blank(views(ws@).take(i as int)),
        decreases ws.len() - i,
    {
        proof {
            let l = views(ws@).take(i + 1);
            assert(l.drop_last() == views(ws@).take(i as int));
            assert(l.last() == ws@[i as int]@);
            if i == 0 {
                assert(l == seq![ws@[0]@]);
                assert(Seq::<char>::empty() + ws@[0]@ == ws@[0]@);
            }
        }
        if i > 0 {
            res.append(" ");
        }
        res.append(ws[i].as_str());
        i += 1;
    }
    proof {
        assert(views(ws@).take(ws.len() as int) == views(ws@));
    }
    res
}

impl Session {
    /// A session with the given inherited environment and aliases.
    pub fn new(env: StrMap<String>, aliases: StrMap<Vec<String>>) -> (s: Self)
        ensures
            s.env@ == env@,
            s.aliases@ == aliases@,
    {
        Session { env, aliases }
    }

    /// `export name=value`: sets a variable of the child environment.
    pub fn export(&mut self, args: &Vec<String>) -> (msg: String)
        ensures
            (final(self).env@, msg@) == spec_export(old(self).env@, views(args@)),
            final(self).aliases@ == old(self).aliases@,
    {
        if args.len() != 2 {
            return String::from_str("A parameter in the form - name=value has to be specified\u{000C}");
        }
        match split_once(args[1].as_str(), '=') {
            Some((name, value)) => {
                self.env.insert(name, value);
                String::from_str("\u{000C}")
            },
            None => String::from_str("The parameter has to be in the name=value form\u{000C}"),
        }
    }

    /// `unset name`: removes a variable of the child environment.
    pub fn unset(&mut self, args: &Vec<String>) -> (msg: String)
        ensures
            (final(self).env@, msg@) == spec_unset(old(self).env@, views(args@)),
            final(self).aliases@ == old(self).aliases@,
    {
        if args.len() != 2 {
            return String::from_str("Name of an environment variable is not specified\u{000C}");
        }
        self.env.remove(args[1].as_str());
        String::from_str("\u{000C}")
    }

    /// `set` of the Windows prompt: lists the environment, or sets or (with
    /// an empty value) removes a variable.
    pub fn set_var(&mut self, args: &Vec<String>) -> (msg: String)
        ensures
            (final(self).env@, msg@) == spec_set_var(old(self).env@, old(self).env.pairs(), views(args@)),
            final(self).aliases@ == old(self).aliases@,
    {
        if args.len() == 1 {
            let mut res = String::new();
            let n = self.env.len();
            let mut i: usize = 0;
            while i < n
                invariant
                    n == self.env.pairs().len(),
                    i <= n,
                    res@ == env_listing(self.env.pairs().take(i as int)),
                decreases n - i,
            {
                proof {
                    let l = self.env.pairs().take(i + 1);
                    assert(l.drop_last() == self.env.pairs().take(i as int));
                    assert(l.last() == self.env.pairs()[i as int]);
                }
                res.append(self.env.key_at(i).as_str());
                res.append("=");
                res.append(self.env.value_at(i).as_str());
                res.append("\n");
                i += 1;
            }
            proof {
                assert(self.env.pairs().take(n as int) == self.env.pairs());
            }
            res.append("\u{000C}");
            res
        } else if args.len() == 2 {
            match split_once(args[1].as_str(), '=') {
                Some((name, value)) => {
                    if value.unicode_len() == 0 {
                        self.env.remove(name.as_str());
                    } else {
                        self.env.insert(name, value);
                    }
                    String::from_str("\u{000C}")
                },
                None => String::from_str("The parameter has to be in a form: name=value\u{000C}"),
            }
        } else {
            String::from_str("Invalid number of parameters\u{000C}")
        }
    }

    /// `alias`: lists the aliases, or defines one from `name=words`, the
    /// name trimmed, the words stripped of surrounding quotes and blanks and
    /// split at ASCII white space.
    pub fn alias(&mut self, args: &Vec<String>) -> (msg: String)
        ensures
            (final(self).aliases@, msg@) == spec_alias(
                old(self).aliases@,
                old(self).aliases.pairs(),
                views(args@),
            ),
            final(self).env@ == old(self).env@,
    {
        if args.len() == 1 {
            let mut res = String::new();
            let n = self.aliases.len();
            let mut i: usize = 0;
            while i < n
                invariant
                    n == self.aliases.pairs().len(),
                    i <= n,
                    res@ == alias_listing(self.aliases.pairs().take(i as int)),
                decreases n - i,
            {
                proof {
                    let l = self.aliases.pairs().take(i + 1);
                    assert(l.drop_last() == self.aliases.pairs().take(i as int));
                    assert(l.last() == self.aliases.pairs()[i as int]);
                }
                res.append("alias ");
                res.append(self.aliases.key_at(i).as_str());
                res.append("='");
                let value = self.aliases.value_at(i);
                proof {
                    crate::wildcard::lemma_deep_view_is_views(*value);
                }
                let joined = join_blank(value);
                res.append(joined.as_str());
                res.append("'\n");
                i += 1;
            }
            proof {
                assert(self.aliases.pairs().take(n as int) == self.aliases.pairs());
            }
            res.append("\u{000C}");
            return res;
        }
        if args.len() == 2 {
            match split_once(args[1].as_str(), '=') {
                Some((name, value)) => {
                    let name = trim(name.as_str());
                    let value = trim_quotes(value.as_str());
                    let words = split_ascii_whitespace(value.as_str());
                    let ghost ws = words;
                    self.aliases.insert(name, words);
                    proof {
                        crate::wildcard::lemma_deep_view_is_views(ws);
                        assert(views(ws@) == ws@.map_values(|w: String| w@));
                    }
                    return String::from_str("\u{000C}");
                },
                None => {},
            }
        }
        String::from_str("Invalid number of arguments of alias\u{000C}")
    }

    /// Decides what to do for a command whose aliases are expanded: runs
    /// the built-ins that only change the session, and returns the action
    /// for the others.
    pub fn dispatch(
        &mut self,
        cmd: Vec<String>,
        piped_empty: bool,
        in_empty: bool,
        out_empty: bool,
        background: bool,
        windows: bool,
    ) -> (res: Action)
        requires
            cmd.len() > 0,
        ensures
            (action_view(res), final(self).env@, final(self).aliases@) == spec_dispatch(
                old(self).env@,
                old(self).env.pairs(),
                old(self).aliases@,
                old(self).aliases.pairs(),
                views(cmd@),
                piped_empty,
                in_empty,
                out_empty,
                background,
                windows,
            ),
    {
        let n = cmd.len();
        match classify_command(&cmd[0], windows, out_empty) {
            Builtin::Dir => {
                let (names_only, at) = crate::process::dir_args(&cmd);
                match at {
                    Some(i) => Action::ListDir { names_only, target: Some(cmd[i].clone()) },
                    None => Action::ListDir { names_only, target: None },
                }
            },
            Builtin::Pwd => Action::ShowCwd,
            Builtin::Cd => if n == 1 {
                Action::ChangeDir(None)
            } else {
                Action::ChangeDir(Some(cmd[1].clone()))
            },
            Builtin::Del => if n == 1 {
                Action::Reply(String::from_str("No name specified\u{000C}"))
            } else {
                Action::Delete(cmd[1].clone())
            },
            Builtin::Type => if n == 1 {
                Action::Reply(String::from_str("The syntax of the command is incorrect.\u{000C}"))
            } else {
                Action::TypeFile(cmd[1].clone())
            },
            Builtin::CopyRen => if n != 3 {
                Action::Reply(
                    String::from_str("Only one source and destination have to be provided\u{000C}"),
                )
            } else if text_is(&cmd[0], "copy") {
                Action::Copy(cmd[1].clone(), cmd[2].clone())
            } else {
                Action::Rename(cmd[1].clone(), cmd[2].clone())
            },
            Builtin::Echo => if n == 2 {
                Action::Echo(Some(cmd[1].clone()))
            } else {
                Action::Echo(None)
            },
            Builtin::MkDir => if n == 1 {
                Action::Reply(String::from_str("No name specified\u{000C}"))
            } else {
                Action::MakeDir(cmd[1].clone())
            },
            Builtin::RmDir => if n == 1 {
                Action::Reply(String::from_str("No name specified\u{000C}"))
            } else {
                Action::RemoveDir(cmd[1].clone())
            },
            Builtin::Export => Action::Reply(self.export(&cmd)),
            Builtin::Unset => Action::Reply(self.unset(&cmd)),
            Builtin::SetVar => Action::Reply(self.set_var(&cmd)),
            Builtin::Alias => Action::Reply(self.alias(&cmd)),
            Builtin::Version => Action::Version,
            Builtin::External => {
                self.note_command(cmd[0].clone());
                let mode = plan_external(piped_empty, in_empty, out_empty, background);
                Action::Run(mode, cmd)
            },
        }
    }

    /// Records the name of the command about to run, as `_`.
    pub fn note_command(&mut self, name: String)
        ensures
            final(self).env@ == old(self).env@.insert("_"@, name@),
            final(self).aliases@ == old(self).aliases@,
    {
        self.env.insert(String::from_str("_"), name);
    }

    /// Records the new working directory, as `PWD`.
    pub fn enter_dir(&mut self, cwd: String)
        ensures
            final(self).env@ == old(self).env@.insert("PWD"@, cwd@),
            final(self).aliases@ == old(self).aliases@,
    {
        self.env.insert(String::from_str("PWD"), cwd);
    }
}

/// A variable set by `export name=value` is what `$name` then expands to.
pub proof fn lemma_export_then_expand(
    env: Map<Seq<char>, Seq<char>>,
    pid: Seq<char>,
    home: Seq<char>,
    name: Seq<char>,
    value: Seq<char>,
)
    requires
        name.len() > 0,
        forall|i: int| 0 <= i < name.len() ==> crate::interp::is_name_char(#[trigger] name[i]),
    ensures
        crate::interp::spec_interpolate(env.insert(name, value), pid, home, seq!['$'] + name)
            == value,
{
    crate::interp::lemma_interpolate_var(env.insert(name, value), pid, home, name);
}

/// A variable removed by `unset name` expands to nothing (`$0` to the
/// terminal's name).
pub proof fn lemma_unset_then_expand(
    env: Map<Seq<char>, Seq<char>>,
    pid: Seq<char>,
    home: Seq<char>,
    name: Seq<char>,
)
    requires
        name.len() > 0,
        forall|i: int| 0 <= i < name.len() ==> crate::interp::is_name_char(#[trigger] name[i]),
    ensures
        crate::interp::spec_interpolate(env.remove(name), pid, home, seq!['$'] + name) == if name
            == seq!['0'] {
            crate::interp::terminal_name()
        } else {
            Seq::<char>::empty()
        },
{
    crate::interp::lemma_interpolate_var(env.remove(name), pid, home, name);
}

/// A command named by an alias defined with `alias` expands to the alias's
/// words, the first as it is and the others interpolated, followed by the
/// command's own arguments.
pub proof fn lemma_alias_then_expand(
    aliases: Map<Seq<char>, Seq<Seq<char>>>,
    name: Seq<char>,
    words: Seq<Seq<char>>,
    cmd: Seq<Seq<char>>,
    env: Map<Seq<char>, Seq<char>>,
    pid: Seq<char>,
    home: Seq<char>,
)
    requires
        cmd.len() > 0,
        cmd[0] == name,
    ensures
        crate::alias::spec_expand_alias(aliases.insert(name, words), cmd, env, pid, home)
            == crate::alias::spec_alias_words(env, pid, home, words) + cmd.drop_first(),
{
}

/// An external command with earlier pipeline stages runs as the last
/// stage. Otherwise, one given an input file is fed that file (whether or
/// not an output file is given too), one given only an output file writes
/// to it, and one given neither runs in the background exactly where the
/// line ended in `&`.
pub proof fn lemma_plan_external_modes(
    piped_empty: bool,
    in_empty: bool,
    out_empty: bool,
    background: bool,
)
    ensures
        !piped_empty ==> spec_plan_external(piped_empty, in_empty, out_empty, background)
            == ExecMode::Pipeline,
        piped_empty && !in_empty ==> spec_plan_external(piped_empty, in_empty, out_empty, background)
            == ExecMode::FromFile,
        piped_empty && in_empty && !out_empty ==> spec_plan_external(
            piped_empty,
            in_empty,
            out_empty,
            background,
        ) == ExecMode::ToFile,
        piped_empty && in_empty && out_empty && background ==> spec_plan_external(
            piped_empty,
            in_empty,
            out_empty,
            background,
        ) == ExecMode::Background,
        piped_empty && in_empty && out_empty && !background ==> spec_plan_external(
            piped_empty,
            in_empty,
            out_empty,
            background,
        ) == ExecMode::Foreground,
{
}

/// On Windows, `copy a b` copies `a` to `b` and `ren a b` renames `a` to
/// `b`: the first argument is the source, the second the destination. The
/// session is unchanged.
pub proof fn lemma_dispatch_copy_ren(
    env: Map<Seq<char>, Seq<char>>,
    env_pairs: Seq<(Seq<char>, Seq<char>)>,
    aliases: Map<Seq<char>, Seq<Seq<char>>>,
    alias_pairs: Seq<(Seq<char>, Seq<Seq<char>>)>,
    a: Seq<char>,
    b: Seq<char>,
    piped_empty: bool,
    in_empty: bool,
    out_empty: bool,
    background: bool,
)
    ensures
        spec_dispatch(
            env,
            env_pairs,
            aliases,
            alias_pairs,
            seq!["copy"@, a, b],
            piped_empty,
            in_empty,
            out_empty,
            background,
            true,
        ) == (ActionView::Copy(a, b), env, aliases),
        spec_dispatch(
            env,
            env_pairs,
            aliases,
            alias_pairs,
            seq!["ren"@, a, b],
            piped_empty,
            in_empty,
            out_empty,
            background,
            true,
        ) == (ActionView::Rename(a, b), env, aliases),
{
    reveal_strlit("copy");
    reveal_strlit("ren");
    reveal_strlit("dir");
    reveal_strlit("pwd");
    reveal_strlit("cd");
    reveal_strlit("del");
    reveal_strlit("type");
    assert("copy"@[0] != "dir"@[0] || "copy"@[1] != "dir"@[1]);
    assert("copy"@[0] != "pwd"@[0] || "copy"@[1] != "pwd"@[1]);
    assert("copy"@[0] != "cd"@[0] || "copy"@[1] != "cd"@[1]);
    assert("copy"@[0] != "del"@[0] || "copy"@[1] != "del"@[1]);
    assert("copy"@[0] != "type"@[0] || "copy"@[1] != "type"@[1]);
    assert("ren"@[0] != "dir"@[0] || "ren"@[1] != "dir"@[1]);
    assert("ren"@[0] != "pwd"@[0] || "ren"@[1] != "pwd"@[1]);
    assert("ren"@[0] != "cd"@[0] || "ren"@[1] != "cd"@[1]);
    assert("ren"@[0] != "del"@[0] || "ren"@[1] != "del"@[1]);
    assert("ren"@[0] != "type"@[0] || "ren"@[1] != "type"@[1]);
    assert("ren"@[0] != "copy"@[0] || "ren"@[1] != "copy"@[1]);
}

/// On Windows, without an output redirection, `dir /b p ..` lists the
/// names of what `p` names, `dir p ..` (with `p` not `/b`) lists `p` in
/// detail, and without a path the working directory is listed. The session
/// is unchanged.
pub proof fn lemma_dispatch_dir(
    env: Map<Seq<char>, Seq<char>>,
    env_pairs: Seq<(Seq<char>, Seq<char>)>,
    aliases: Map<Seq<char>, Seq<Seq<char>>>,
    alias_pairs: Seq<(Seq<char>, Seq<Seq<char>>)>,
    cmd: Seq<Seq<char>>,
    piped_empty: bool,
    in_empty: bool,
    background: bool,
)
    requires
        cmd.len() > 0,
        cmd[0] == "dir"@,
    ensures
        ({
            let d = spec_dispatch(
                env,
                env_pairs,
                aliases,
                alias_pairs,
                cmd,
                piped_empty,
                in_empty,
                true,
                background,
                true,
            );
            &&& d.1 == env
            &&& d.2 == aliases
            &&& cmd.len() == 1 ==> d.0 == ActionView::ListDir(false, None)
            &&& cmd.len() == 2 && cmd[1] == "/b"@ ==> d.0 == ActionView::ListDir(true, None)
            &&& cmd.len() >= 3 && cmd[1] == "/b"@ ==> d.0 == ActionView::ListDir(true, Some(cmd[2]))
            &&& cmd.len() >= 2 && cmd[1] != "/b"@ ==> d.0 == ActionView::ListDir(false, Some(cmd[1]))
        }),
{
}

/// On Windows, without an output redirection, the commands of one path act
/// on that path: `cd p` enters it, `del p` deletes what it names, `type p`
/// shows it, `echo p` sends it back, `md p` and `mkdir p` create it and
/// `rmdir p` removes it. The session is unchanged.
pub proof fn lemma_dispatch_path_commands(
    env: Map<Seq<char>, Seq<char>>,
    env_pairs: Seq<(Seq<char>, Seq<char>)>,
    aliases: Map<Seq<char>, Seq<Seq<char>>>,
    alias_pairs: Seq<(Seq<char>, Seq<Seq<char>>)>,
    p: Seq<char>,
    piped_empty: bool,
    in_empty: bool,
    background: bool,
)
    ensures
        spec_dispatch(
            env,
            env_pairs,
            aliases,
            alias_pairs,
            seq!["cd"@, p],
            piped_empty,
            in_empty,
            true,
            background,
            true,
        ) == (ActionView::ChangeDir(Some(p)), env, aliases),
        spec_dispatch(
            env,
            env_pairs,
            aliases,
            alias_pairs,
            seq!["del"@, p],
            piped_empty,
            in_empty,
            true,
            background,
            true,
        ) == (ActionView::Delete(p), env, aliases),
        spec_dispatch(
            env,
            env_pairs,
            aliases,
            alias_pairs,
            seq!["type"@, p],
            piped_empty,
            in_empty,
            true,
            background,
            true,
        ) == (ActionView::TypeFile(p), env, aliases),
        spec_dispatch(
            env,
            env_pairs,
            aliases,
            alias_pairs,
            seq!["echo"@, p],
            piped_empty,
            in_empty,
            true,
            background,
            true,
        ) == (ActionView::Echo(Some(p)), env, aliases),
        spec_dispatch(
            env,
            env_pairs,
            aliases,
            alias_pairs,
            seq!["md"@, p],
            piped_empty,
            in_empty,
            true,
            background,
            true,
        ) == (ActionView::MakeDir(p), env, aliases),
        spec_dispatch(
            env,
            env_pairs,
            aliases,
            alias_pairs,
            seq!["mkdir"@, p],
            piped_empty,
            in_empty,
            true,
            background,
            true,
        ) == (ActionView::MakeDir(p), env, aliases),
        spec_dispatch(
            env,
            env_pairs,
            aliases,
            alias_pairs,
            seq!["rmdir"@, p],
            piped_empty,
            in_empty,
            true,
            background,
            true,
        ) == (ActionView::RemoveDir(p), env, aliases),
{
    reveal_strlit("cd");
    reveal_strlit("copy");
    reveal_strlit("del");
    reveal_strlit("dir");
    reveal_strlit("echo");
    reveal_strlit("md");
    reveal_strlit("mkdir");
    reveal_strlit("pwd");
    reveal_strlit("ren");
    reveal_strlit("rmdir");
    reveal_strlit("type");
    assert("cd"@[0] != "dir"@[0]);
    assert("cd"@[0] != "pwd"@[0]);
    assert("del"@[1] != "dir"@[1]);
    assert("del"@[0] != "pwd"@[0]);
    assert("del"@[0] != "cd"@[0]);
    assert("type"@[0] != "dir"@[0]);
    assert("type"@[0] != "pwd"@[0]);
    assert("type"@[0] != "cd"@[0]);
    assert("type"@[0] != "del"@[0]);
    assert("echo"@[0] != "dir"@[0]);
    assert("echo"@[0] != "pwd"@[0]);
    assert("echo"@[0] != "cd"@[0]);
    assert("echo"@[0] != "del"@[0]);
    assert("echo"@[0] != "type"@[0]);
    assert("echo"@[0] != "copy"@[0]);
    assert("echo"@[0] != "ren"@[0]);
    assert("md"@[0] != "dir"@[0]);
    assert("md"@[0] != "pwd"@[0]);
    assert("md"@[0] != "cd"@[0]);
    assert("md"@[0] != "del"@[0]);
    assert("md"@[0] != "type"@[0]);
    assert("md"@[0] != "copy"@[0]);
    assert("md"@[0] != "ren"@[0]);
    assert("md"@[0] != "echo"@[0]);
    assert("mkdir"@[0] != "dir"@[0]);
    assert("mkdir"@[0] != "pwd"@[0]);
    assert("mkdir"@[0] != "cd"@[0]);
    assert("mkdir"@[0] != "del"@[0]);
    assert("mkdir"@[0] != "type"@[0]);
    assert("mkdir"@[0] != "copy"@[0]);
    assert("mkdir"@[0] != "ren"@[0]);
    assert("mkdir"@[0] != "echo"@[0]);
    assert("mkdir"@[1] != "md"@[1]);
    assert("rmdir"@[0] != "dir"@[0]);
    assert("rmdir"@[0] != "pwd"@[0]);
    assert("rmdir"@[0] != "cd"@[0]);
    assert("rmdir"@[0] != "del"@[0]);
    assert("rmdir"@[0] != "type"@[0]);
    assert("rmdir"@[0] != "copy"@[0]);
    assert("rmdir"@[1] != "ren"@[1]);
    assert("rmdir"@[0] != "echo"@[0]);
    assert("rmdir"@[0] != "md"@[0]);
    assert("rmdir"@[0] != "mkdir"@[0]);
}

/// A command whose name is no built-in's runs as a program, in the way
/// its pipeline and redirections choose, and its name is recorded as `_`
/// in the environment.
pub proof fn lemma_dispatch_external(
    env: Map<Seq<char>, Seq<char>>,
    env_pairs: Seq<(Seq<char>, Seq<char>)>,
    aliases: Map<Seq<char>, Seq<Seq<char>>>,
    alias_pairs: Seq<(Seq<char>, Seq<Seq<char>>)>,
    cmd: Seq<Seq<char>>,
    piped_empty: bool,
    in_empty: bool,
    out_empty: bool,
    background: bool,
    windows: bool,
)
    requires
        cmd.len() > 0,
        cmd[0] != "dir"@,
        cmd[0] != "pwd"@,
        cmd[0] != "cd"@,
        cmd[0] != "del"@,
        cmd[0] != "type"@,
        cmd[0] != "copy"@,
        cmd[0] != "ren"@,
        cmd[0] != "echo"@,
        cmd[0] != "md"@,
        cmd[0] != "mkdir"@,
        cmd[0] != "rmdir"@,
        cmd[0] != "export"@,
        cmd[0] != "unset"@,
        cmd[0] != "set"@,
        cmd[0] != "alias"@,
        cmd[0] != "ver!"@,
    ensures
        spec_dispatch(
            env,
            env_pairs,
            aliases,
            alias_pairs,
            cmd,
            piped_empty,
            in_empty,
            out_empty,
            background,
            windows,
        ) == (
            ActionView::Run(spec_plan_external(piped_empty, in_empty, out_empty, background), cmd),
            env.insert("_"@, cmd[0]),
            aliases,
        ),
{
}

} // verus!
