//! Decisions around child processes and the commands of the Windows prompt
//! that the terminal emulates: the user's input to a running child, the
//! emulated commands, listing details and the names of file operations.
use vstd::prelude::*;
use crate::text::{text_is, string_of};
use crate::wildcard::views;
use crate::complete::{platform_starts_with, spec_starts_with};

verus! {

/// Whether a block of user input to a running child is a lone Ctrl-C, which
/// kills the child.
pub fn wants_interrupt(buf: &[u8]) -> (res: bool)
    ensures
        res == (buf@.len() == 1 && buf@[0] == 3),
{
    buf.len() == 1 && buf[0] == 3
}

/// What to do with a block of user input to a running child.
#[derive(Clone, Copy, Debug, PartialEq, Eq, Structural)]
pub enum ChildInput {
    /// A lone `.` line: close the child's input.
    Close,
    /// A lone end-of-file mark (Ctrl-Z): close the child's input.
    EndOfInput,
    /// Write `buf[start..end]` to the child and echo `buf[..end]`; where
    /// `eof`, close the child's input afterwards.
    Forward { start: usize, end: usize, eof: bool },
}

pub open spec fn spec_plan_child_input(buf: Seq<u8>) -> ChildInput {
    let len = buf.len();
    if len == 2 && buf[0] == 0x2e && buf[1] == 0x0a {
        ChildInput::Close
    } else {
        let start: usize = if len == 3 && buf[0] == 0x2e && buf[1] == 0x2e && buf[2] == 0x0a {
            1
        } else {
            0
        };
        if buf[len - 1] == 0x1a {
            if start == len - 1 {
                ChildInput::EndOfInput
            } else {
                ChildInput::Forward { start, end: (len - 1) as usize, eof: true }
            }
        } else {
            ChildInput::Forward { start, end: len as usize, eof: false }
        }
    }
}

/// Plans a block of user input to a running child: `.` alone closes its
/// input, `..` sends a `.` line, and a trailing Ctrl-Z ends its input after
/// the text before it.
pub fn plan_child_input(buf: &[u8]) -> (res: ChildInput)
    requires
        buf@.len() > 0,
    ensures
        res == spec_plan_child_input(buf@),
        res matches ChildInput::Forward { start, end, eof } ==> start <= end <= buf@.len(),
{
    let len = buf.len();
    if len == 2 && buf[0] == 0x2e && buf[1] == 0x0a {
        return ChildInput::Close;
    }
    let start: usize = if len == 3 && buf[0] == 0x2e && buf[1] == 0x2e && buf[2] == 0x0a {
        1
    } else {
        0
    };
    if buf[len - 1] == 0x1a {
        if start == len - 1 {
            ChildInput::EndOfInput
        } else {
            ChildInput::Forward { start, end: len - 1, eof: true }
        }
    } else {
        ChildInput::Forward { start, end: len, eof: false }
    }
}

/// The arguments of `dir`: whether `/b` asks for names only, and the
/// position of the path argument, if one is given.
pub open spec fn spec_dir_args(cmd: Seq<Seq<char>>) -> (bool, Option<int>) {
    let names_only = cmd.len() > 1 && cmd[1] == "/b"@;
    let first: int = if names_only { 2 } else { 1 };
    (names_only, if cmd.len() == first { None } else { Some(first) })
}

pub fn dir_args(cmd: &Vec<String>) -> (res: (bool, Option<usize>))
    ensures
        res.0 == spec_dir_args(views(cmd@)).0,
        match res.1 {
            Some(i) => spec_dir_args(views(cmd@)).1 == Some(i as int),
            None => spec_dir_args(views(cmd@)).1 is None,
        },
{
    let names_only = cmd.len() > 1 && text_is(&cmd[1], "/b");
    let first: usize = if names_only { 2 } else { 1 };
    if cmd.len() == first {
        (names_only, None)
    } else {
        (names_only, Some(first))
    }
}

/// How a command of the Windows prompt is emulated inside a pipeline or a
/// redirection.
pub enum Emulation {
    /// Not an emulated command: run it as a program.
    NotEmulated,
    /// Wrong arguments: report this error.
    Error(String),
    /// `echo`: the output is this text.
    Echo(String),
    /// `type`: the output is the contents of the files this pattern names.
    Type(String),
    /// `dir`: the names of the files this pattern names (the working
    /// directory where there is none).
    Dir { names_only: bool, pattern: Option<String> },
}

/// The view of an emulation: a tag, its text, and the `dir` details.
pub open spec fn emulation_view(e: Emulation) -> (int, Seq<char>, bool, Option<Seq<char>>) {
    match e {
        Emulation::NotEmulated => (0, Seq::empty(), false, None),
        Emulation::Error(m) => (1, m@, false, None),
        Emulation::Echo(t) => (2, t@, false, None),
        Emulation::Type(p) => (3, p@, false, None),
        Emulation::Dir { names_only, pattern } => (4, Seq::empty(), names_only, match pattern {
            Some(p) => Some(p@),
            None => None,
        }),
    }
}

pub open spec fn spec_plan_emulation(cmd: Seq<Seq<char>>) -> (int, Seq<char>, bool, Option<Seq<char>>) {
    if cmd[0] == "echo"@ {
        if cmd.len() != 2 {
            (1, "Wrong number of 'echo' arguments"@, false, None)
        } else {
            (2, cmd[1], false, None)
        }
    } else if cmd[0] == "type"@ {
        if cmd.len() != 2 {
            (1, "Wrong number of 'type' arguments"@, false, None)
        } else {
            (3, cmd[1], false, None)
        }
    } else if cmd[0] == "dir"@ {
        let (names_only, at) = spec_dir_args(cmd);
        (4, Seq::empty(), names_only, match at {
            Some(i) => Some(cmd[i]),
            None => None,
        })
    } else {
        (0, Seq::empty(), false, None)
    }
}

/// Decides how a command of a pipeline or redirection is emulated where
/// the Windows prompt has it built in: `echo`, `type` and `dir`.
pub fn plan_emulation(cmd: &Vec<String>) -> (res: Emulation)
    requires
        cmd.len() > 0,
    ensures
        emulation_view(res) == spec_plan_emulation(views(cmd@)),
{
    if text_is(&cmd[0], "echo") {
        if cmd.len() != 2 {
            Emulation::Error(string_of("Wrong number of 'echo' arguments"))
        } else {
            Emulation::Echo(cmd[1].clone())
        }
    } else if text_is(&cmd[0], "type") {
        if cmd.len() != 2 {
            Emulation::Error(string_of("Wrong number of 'type' arguments"))
        } else {
            Emulation::Type(cmd[1].clone())
        }
    } else if text_is(&cmd[0], "dir") {
        let (names_only, at) = dir_args(cmd);
        match at {
            Some(i) => Emulation::Dir { names_only, pattern: Some(cmd[i].clone()) },
            None => Emulation::Dir { names_only, pattern: None },
        }
    } else {
        Emulation::NotEmulated
    }
}

/// `dir` is emulated as a listing: `dir /b p ..` lists the names of what
/// `p` names, `dir p ..` (with `p` not `/b`) lists `p` in detail, and
/// without a path the working directory is listed.
pub proof fn lemma_emulate_dir(cmd: Seq<Seq<char>>)
    requires
        cmd.len() > 0,
        cmd[0] == "dir"@,
    ensures
        cmd.len() == 1 ==> spec_plan_emulation(cmd) == (4int, Seq::<char>::empty(), false, None::<Seq<char>>),
        cmd.len() == 2 && cmd[1] == "/b"@ ==> spec_plan_emulation(cmd) == (
            4int,
            Seq::<char>::empty(),
            true,
            None::<Seq<char>>,
        ),
        cmd.len() >= 3 && cmd[1] == "/b"@ ==> spec_plan_emulation(cmd) == (
            4int,
            Seq::<char>::empty(),
            true,
            Some(cmd[2]),
        ),
        cmd.len() >= 2 && cmd[1] != "/b"@ ==> spec_plan_emulation(cmd) == (
            4int,
            Seq::<char>::empty(),
            false,
            Some(cmd[1]),
        ),
{
    reveal_strlit("dir");
    reveal_strlit("echo");
    reveal_strlit("type");
    assert("dir"@[0] != "echo"@[0]);
    assert("dir"@[0] != "type"@[0]);
}

/// `echo t` is emulated by the output `t`, and `type p` by the contents of
/// the files `p` names.
pub proof fn lemma_emulate_echo_type(t: Seq<char>)
    ensures
        spec_plan_emulation(seq!["echo"@, t]) == (2int, t, false, None::<Seq<char>>),
        spec_plan_emulation(seq!["type"@, t]) == (3int, t, false, None::<Seq<char>>),
{
    reveal_strlit("echo");
    reveal_strlit("type");
    assert("type"@[0] != "echo"@[0]);
}

/// The hour on a 12-hour clock and whether it is before noon (`A`) or after
/// (`P`).
pub open spec fn spec_clock_12(h: u32) -> (u32, char) {
    if h == 0 {
        (12, 'A')
    } else if h < 12 {
        (h, 'A')
    } else if h == 12 {
        (12, 'P')
    } else {
        ((h - 12) as u32, 'P')
    }
}

pub fn clock_12(h: u32) -> (res: (u32, char))
    requires
        h < 24,
    ensures
        res == spec_clock_12(h),
        1 <= res.0 <= 12,
{
    if h == 0 {
        (12, 'A')
    } else if h < 12 {
        (h, 'A')
    } else if h == 12 {
        (12, 'P')
    } else {
        (h - 12, 'P')
    }
}

/// The kind of file an extension names, for colouring listings.
#[derive(Clone, Copy, Debug, PartialEq, Eq, Structural)]
pub enum FileKind {
    Executable,
    Archive,
    Image,
    Document,
    Script,
    Other,
}

pub open spec fn spec_kind_of_extension(e: Seq<char>) -> FileKind {
    if e == "exe"@ || e == "com"@ || e == "bat"@ || e == "msi"@ {
        FileKind::Executable
    } else if e == "zip"@ || e == "gz"@ || e == "rar"@ || e == "7z"@ || e == "xz"@ || e == "jar"@
        || e == "tgz"@ || e == "bz2"@ || e == "war"@ || e == "tar"@ {
        FileKind::Archive
    } else if e == "jpeg"@ || e == "jpg"@ || e == "png"@ || e == "bmp"@ || e == "gif"@ {
        FileKind::Image
    } else if e == "txt"@ || e == "md"@ {
        FileKind::Document
    } else if e == "7b"@ || e == "rb"@ {
        FileKind::Script
    } else {
        FileKind::Other
    }
}

pub fn kind_of_extension(ext: &str) -> (res: FileKind)
    ensures
        res == spec_kind_of_extension(ext@),
{
    let e = string_of(ext);
    if text_is(&e, "exe") || text_is(&e, "com") || text_is(&e, "bat") || text_is(&e, "msi") {
        FileKind::Executable
    } else if text_is(&e, "zip") || text_is(&e, "gz") || text_is(&e, "rar") || text_is(&e, "7z")
        || text_is(&e, "xz") || text_is(&e, "jar") || text_is(&e, "tgz") || text_is(&e, "bz2")
        || text_is(&e, "war") || text_is(&e, "tar") {
        FileKind::Archive
    } else if text_is(&e, "jpeg") || text_is(&e, "jpg") || text_is(&e, "png") || text_is(&e, "bmp")
        || text_is(&e, "gif") {
        FileKind::Image
    } else if text_is(&e, "txt") || text_is(&e, "md") {
        FileKind::Document
    } else if text_is(&e, "7b") || text_is(&e, "rb") {
        FileKind::Script
    } else {
        FileKind::Other
    }
}

/// The source and target names of one file of a wildcard operation: the
/// source is the matched part between the text before and after the
/// source's wildcard; the target likewise with the target's pattern, or
/// empty where the target has no wildcard.
pub open spec fn spec_op_names(
    src_before: Seq<char>,
    name: Seq<char>,
    src_after: Seq<char>,
    has_dst: bool,
    dst: Option<(Seq<char>, Seq<char>)>,
) -> (Seq<char>, Seq<char>) {
    let to = match dst {
        Some((b, a)) => if has_dst {
            b + name + a
        } else {
            Seq::empty()
        },
        None => Seq::empty(),
    };
    (src_before + name + src_after, to)
}

pub fn op_names(
    src_before: &str,
    name: &str,
    src_after: &str,
    has_dst: bool,
    dst_before: &Option<String>,
    dst_after: &Option<String>,
) -> (res: (String, String))
    ensures
        (res.0@, res.1@) == spec_op_names(
            src_before@,
            name@,
            src_after@,
            has_dst,
            match (dst_before, dst_after) {
                (Some(b), Some(a)) => Some((b@, a@)),
                _ => None,
            },
        ),
{
    let to = match (dst_before, dst_after) {
        (Some(b), Some(a)) => {
            if has_dst {
                let mut t = b.clone();
                t.append(name);
                t.append(a.as_str());
                t
            } else {
                String::new()
            }
        },
        _ => String::new(),
    };
    let mut from = string_of(src_before);
    from.append(name);
    from.append(src_after);
    (from, to)
}

/// Whether a path names an executable file on Unix: a regular file with an
/// execute bit set in its permission bits.
pub fn executable_by_mode(is_file: bool, mode: u32) -> (res: bool)
    ensures
        res == (is_file && (mode & 0o111u32) != 0),
{
    is_file && mode & 0o111 != 0
}

/// Whether a path names an executable file on Windows: a file named `.exe`
/// or `.bat`.
pub fn executable_by_extension(is_file: bool, ext: &Option<String>) -> (res: bool)
    ensures
        res == (is_file && match ext {
            Some(e) => e@ == "exe"@ || e@ == "bat"@,
            None => false,
        }),
{
    is_file && match ext {
        Some(e) => text_is(e, "exe") || text_is(e, "bat"),
        None => false,
    }
}

/// Whether a program named on the Windows prompt is found relative to the
/// working directory: its name starts with `.\` or `..\`.
pub fn names_local_program(prog: &str) -> (res: bool)
    ensures
        res == (spec_starts_with(prog@, ".\\"@, false) || spec_starts_with(prog@, "..\\"@, false)),
{
    platform_starts_with(prog, ".\\", false) || platform_starts_with(prog, "..\\", false)
}

} // verus!
