use simterm::process::{
    clock_12, dir_args, executable_by_extension, executable_by_mode, kind_of_extension, op_names,
    plan_child_input, plan_emulation, wants_interrupt, ChildInput, Emulation, FileKind,
};

fn s(v: &[&str]) -> Vec<String> {
    v.iter().map(|x| x.to_string()).collect()
}

#[test]
fn plans_child_input() {
    assert!(wants_interrupt(&[3]));
    assert!(!wants_interrupt(&[3, 3]));
    assert_eq!(plan_child_input(b".\n"), ChildInput::Close);
    assert_eq!(plan_child_input(b"..\n"), ChildInput::Forward { start: 1, end: 3, eof: false });
    assert_eq!(plan_child_input(&[0x1a]), ChildInput::EndOfInput);
    assert_eq!(plan_child_input(b"abc\x1a"), ChildInput::Forward { start: 0, end: 3, eof: true });
    assert_eq!(plan_child_input(b"hi\n"), ChildInput::Forward { start: 0, end: 3, eof: false });
}

#[test]
fn plans_emulation() {
    assert!(matches!(plan_emulation(&s(&["echo", "hi"])), Emulation::Echo(t) if t == "hi"));
    assert!(matches!(plan_emulation(&s(&["echo"])), Emulation::Error(m) if m == "Wrong number of 'echo' arguments"));
    assert!(matches!(plan_emulation(&s(&["type", "a", "b"])), Emulation::Error(m) if m == "Wrong number of 'type' arguments"));
    assert!(matches!(plan_emulation(&s(&["type", "a.txt"])), Emulation::Type(p) if p == "a.txt"));
    assert!(matches!(plan_emulation(&s(&["dir", "/b"])), Emulation::Dir { names_only: true, pattern: None }));
    assert!(matches!(plan_emulation(&s(&["dir", "x"])), Emulation::Dir { names_only: false, pattern: Some(p) } if p == "x"));
    assert!(matches!(plan_emulation(&s(&["ls"])), Emulation::NotEmulated));
}

#[test]
fn dir_arguments() {
    assert_eq!(dir_args(&s(&["dir"])), (false, None));
    assert_eq!(dir_args(&s(&["dir", "/b", "c:\\x"])), (true, Some(2)));
    assert_eq!(dir_args(&s(&["dir", "x", "y"])), (false, Some(1)));
}

#[test]
fn twelve_hour_clock() {
    assert_eq!(clock_12(0), (12, 'A'));
    assert_eq!(clock_12(11), (11, 'A'));
    assert_eq!(clock_12(12), (12, 'P'));
    assert_eq!(clock_12(13), (1, 'P'));
    assert_eq!(clock_12(23), (11, 'P'));
}

#[test]
fn kinds_of_extensions() {
    assert_eq!(kind_of_extension("exe"), FileKind::Executable);
    assert_eq!(kind_of_extension("tgz"), FileKind::Archive);
    assert_eq!(kind_of_extension("png"), FileKind::Image);
    assert_eq!(kind_of_extension("md"), FileKind::Document);
    assert_eq!(kind_of_extension("rb"), FileKind::Script);
    assert_eq!(kind_of_extension("rs"), FileKind::Other);
}

#[test]
fn names_of_operations() {
    let (from, to) = op_names("a", "x", ".rs", true, &Some("b".to_string()), &Some(".bak".to_string()));
    assert_eq!((from.as_str(), to.as_str()), ("ax.rs", "bx.bak"));
    let (from, to) = op_names("", "f", "", true, &None, &None);
    assert_eq!((from.as_str(), to.as_str()), ("f", ""));
}

#[test]
fn executable_checks() {
    assert!(!executable_by_mode(true, 0o644));
    assert!(executable_by_mode(true, 0o755));
    assert!(executable_by_mode(true, 0o100));
    assert!(!executable_by_mode(false, 0o755));
    assert!(!executable_by_mode(false, 0o644));
    assert!(executable_by_extension(true, &Some("bat".to_string())));
    assert!(executable_by_extension(true, &Some("exe".to_string())));
    assert!(!executable_by_extension(true, &Some("txt".to_string())));
    assert!(!executable_by_extension(true, &None));
    assert!(!executable_by_extension(false, &Some("exe".to_string())));
}

#[test]
fn local_programs_on_windows() {
    assert!(simterm::process::names_local_program(".\\run.bat"));
    assert!(simterm::process::names_local_program("..\\bin\\x.exe"));
    assert!(!simterm::process::names_local_program("cmd.exe"));
}
