use simterm::session::{
    classify_block, classify_command, is_inherited_var, plan_external, Action, Block, Builtin,
    ExecMode, Session,
};
use simterm::strmap::StrMap;

fn s(v: &[&str]) -> Vec<String> {
    v.iter().map(|x| x.to_string()).collect()
}

fn session() -> Session {
    Session::new(StrMap::new(), StrMap::new())
}

#[test]
fn classifies_blocks() {
    assert_eq!(classify_block(&[255, 255, 255, 4]), Block::Quit);
    assert_eq!(classify_block(&[255, 255, 255, 4, 10]), Block::Quit);
    assert_eq!(classify_block(&[3]), Block::Interrupt);
    assert_eq!(classify_block(b"ls\n"), Block::Text);
}

#[test]
fn filters_request_variables() {
    assert!(is_inherited_var("PATH"));
    assert!(!is_inherited_var("HTTP_HOST"));
    assert!(!is_inherited_var("QUERY_STRING"));
    assert!(!is_inherited_var("_"));
    assert!(!is_inherited_var("PWD"));
}

#[test]
fn classifies_commands() {
    assert_eq!(classify_command(&"dir".to_string(), true, true), Builtin::Dir);
    assert_eq!(classify_command(&"dir".to_string(), true, false), Builtin::External);
    assert_eq!(classify_command(&"dir".to_string(), false, true), Builtin::External);
    assert_eq!(classify_command(&"cd".to_string(), false, false), Builtin::Cd);
    assert_eq!(classify_command(&"ren".to_string(), true, false), Builtin::CopyRen);
    assert_eq!(classify_command(&"ver!".to_string(), false, true), Builtin::Version);
}

#[test]
fn plans_external_commands() {
    assert_eq!(plan_external(true, true, true, true), ExecMode::Background);
    assert_eq!(plan_external(true, true, true, false), ExecMode::Foreground);
    assert_eq!(plan_external(true, true, false, false), ExecMode::ToFile);
    assert_eq!(plan_external(true, false, false, false), ExecMode::FromFile);
    assert_eq!(plan_external(false, true, true, true), ExecMode::Pipeline);
}

#[test]
fn export_and_unset() {
    let mut ses = session();
    assert_eq!(ses.export(&s(&["export", "A=1"])), "\u{000C}");
    assert_eq!(ses.env.get("A"), Some(&"1".to_string()));
    assert_eq!(ses.export(&s(&["export"])), "A parameter in the form - name=value has to be specified\u{000C}");
    assert_eq!(ses.export(&s(&["export", "A"])), "The parameter has to be in the name=value form\u{000C}");
    assert_eq!(ses.unset(&s(&["unset", "A"])), "\u{000C}");
    assert_eq!(ses.env.get("A"), None);
    assert_eq!(ses.unset(&s(&["unset"])), "Name of an environment variable is not specified\u{000C}");
}

#[test]
fn windows_set_lists_and_changes() {
    let mut ses = session();
    assert_eq!(ses.set_var(&s(&["set", "A=1"])), "\u{000C}");
    assert_eq!(ses.set_var(&s(&["set", "B=2"])), "\u{000C}");
    assert_eq!(ses.set_var(&s(&["set"])), "A=1\nB=2\n\u{000C}");
    assert_eq!(ses.set_var(&s(&["set", "A="])), "\u{000C}");
    assert_eq!(ses.env.get("A"), None);
    assert_eq!(ses.set_var(&s(&["set", "x"])), "The parameter has to be in a form: name=value\u{000C}");
    assert_eq!(ses.set_var(&s(&["set", "a", "b"])), "Invalid number of parameters\u{000C}");
}

#[test]
fn alias_defines_and_lists() {
    let mut ses = session();
    assert_eq!(ses.alias(&s(&["alias", " ll = 'ls -l'"])), "\u{000C}");
    assert_eq!(ses.aliases.get("ll"), Some(&s(&["ls", "-l"])));
    assert_eq!(ses.alias(&s(&["alias"])), "alias ll='ls -l'\n\u{000C}");
    assert_eq!(ses.alias(&s(&["alias", "x"])), "Invalid number of arguments of alias\u{000C}");
}

#[test]
fn dispatch_runs_builtins_and_plans_programs() {
    let mut ses = session();
    match ses.dispatch(s(&["export", "K=v"]), true, true, true, false, false) {
        Action::Reply(m) => assert_eq!(m, "\u{000C}"),
        _ => panic!("expected a reply"),
    }
    assert_eq!(ses.env.get("K"), Some(&"v".to_string()));
    match ses.dispatch(s(&["make", "all"]), true, true, true, false, false) {
        Action::Run(mode, cmd) => {
            assert_eq!(mode, ExecMode::Foreground);
            assert_eq!(cmd, s(&["make", "all"]));
        }
        _ => panic!("expected a program"),
    }
    assert_eq!(ses.env.get("_"), Some(&"make".to_string()));
    assert!(matches!(ses.dispatch(s(&["cd"]), true, true, true, false, false), Action::ChangeDir(None)));
    assert!(matches!(ses.dispatch(s(&["del"]), true, true, true, false, true), Action::Reply(_)));
    match ses.dispatch(s(&["copy", "a", "b"]), true, true, true, false, true) {
        Action::Copy(a, b) => assert_eq!((a.as_str(), b.as_str()), ("a", "b")),
        _ => panic!("expected a copy"),
    }
    match ses.dispatch(s(&["dir", "/b"]), true, true, true, false, true) {
        Action::ListDir { names_only, target } => {
            assert!(names_only);
            assert!(target.is_none());
        }
        _ => panic!("expected a listing"),
    }
}

#[test]
fn session_records_directory() {
    let mut ses = session();
    ses.enter_dir("/tmp".to_string());
    assert_eq!(ses.env.get("PWD"), Some(&"/tmp".to_string()));
}

#[test]
fn exported_variable_is_interpolated() {
    let mut ses = session();
    ses.export(&s(&["export", "NAME=world"]));
    assert_eq!(simterm::interp::interpolate_env("$NAME", &ses.env, "1", &None), "world");
    ses.unset(&s(&["unset", "NAME"]));
    assert_eq!(simterm::interp::interpolate_env("$NAME", &ses.env, "1", &None), "");
}

#[test]
fn defined_alias_is_expanded() {
    let mut ses = session();
    ses.export(&s(&["export", "D=/data"]));
    ses.alias(&s(&["alias", "lsd=ls -a $D"]));
    let cmd = simterm::alias::expand_alias(&ses.aliases, s(&["lsd", "x"]), &ses.env, "1", &None);
    assert_eq!(cmd, s(&["ls", "-a", "/data", "x"]));
}

#[test]
fn ends_with_tab_asks_completion() {
    assert!(simterm::session::ends_with_tab("ls sr\t"));
    assert!(!simterm::session::ends_with_tab("ls\n"));
    assert!(!simterm::session::ends_with_tab(""));
}
