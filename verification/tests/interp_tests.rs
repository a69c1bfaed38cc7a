use simterm::interp::interpolate_env;
use simterm::strmap::StrMap;

fn env() -> StrMap<String> {
    let mut m = StrMap::new();
    m.insert("FOO".to_string(), "bar".to_string());
    m.insert("HOME".to_string(), "/h".to_string());
    m
}

fn run(s: &str) -> String {
    interpolate_env(s, &env(), "42", &Some("/home/u".to_string()))
}

#[test]
fn interpolates_variables() {
    assert_eq!(run("$FOO"), "bar");
    assert_eq!(run("${FOO}x"), "barx");
    assert_eq!(run("$FOO-x"), "bar-x");
    assert_eq!(run("a$FOO/b"), "abar/b");
    assert_eq!(run("$UNDEF."), ".");
}

#[test]
fn interpolates_specials() {
    assert_eq!(run("$$"), "42");
    assert_eq!(run("$0"), "sim/terminal");
    assert_eq!(run("$"), "$");
    assert_eq!(run("$~"), "$~");
}

#[test]
fn interpolates_home() {
    assert_eq!(run("~/a"), "/home/u/a");
    assert_eq!(run("a=~"), "a=/home/u");
    assert_eq!(run("x~"), "x~");
    assert_eq!(interpolate_env("~", &env(), "1", &None), "");
}

#[test]
fn interpolation_escapes() {
    assert_eq!(run("\\$FOO"), "$FOO");
    assert_eq!(run("trail\\"), "trail\\");
    assert_eq!(run("a\\b"), "a\\b");
    assert_eq!(run("plain text {x}"), "plain text {x}");
}
