use simterm::cmdline::{parse_cmd, CmdLine};
use simterm::strmap::StrMap;

fn parse(s: &str, glob: bool) -> CmdLine {
    let mut env = StrMap::new();
    env.insert("FOO".to_string(), "bar".to_string());
    parse_cmd(s, &env, "7", &Some("/h".to_string()), glob)
}

fn texts(v: &CmdLine) -> Vec<String> {
    v.args.iter().map(|w| w.text.clone()).collect()
}

#[test]
fn parses_plain_words() {
    let c = parse("ls -l /tmp", true);
    assert_eq!(texts(&c), vec!["ls", "-l", "/tmp"]);
    assert!(c.piped.is_empty());
    assert_eq!(c.in_file, "");
    assert_eq!(c.out_file, "");
    assert!(!c.append && !c.background);
}

#[test]
fn parses_quotes() {
    let c = parse("echo 'a b $FOO' \"$FOO x\" z\"$FOO\"", true);
    assert_eq!(texts(&c), vec!["echo", "a b $FOO", "bar x", "zbar"]);
    let c = parse("echo ''", true);
    assert_eq!(texts(&c), vec!["echo", ""]);
}

#[test]
fn parses_escapes() {
    assert_eq!(texts(&parse("a\\ b", true)), vec!["a b"]);
    assert_eq!(texts(&parse("x\\y", true)), vec!["x\\y"]);
    assert_eq!(texts(&parse("end\\", true)), vec!["end\\"]);
}

#[test]
fn parses_redirections() {
    let c = parse("cat < in.txt > out.txt", true);
    assert_eq!(texts(&c), vec!["cat"]);
    assert_eq!(c.in_file, "in.txt");
    assert_eq!(c.out_file, "out.txt");
    assert!(!c.append);
}

#[test]
fn parses_pipelines() {
    let c = parse("ls | grep x >> log", true);
    assert_eq!(c.piped.len(), 1);
    assert_eq!(c.piped[0].iter().map(|w| w.text.clone()).collect::<Vec<_>>(), vec!["ls"]);
    assert_eq!(texts(&c), vec!["grep", "x"]);
    assert_eq!(c.out_file, "log");
    assert!(c.append);
}

#[test]
fn parses_background() {
    assert!(parse("sleep 10 &", true).background);
    assert!(!parse("a & b", true).background);
}

#[test]
fn marks_wildcards() {
    let c = parse("ls *.rs", true);
    assert_eq!(texts(&c), vec!["ls", "*.rs"]);
    assert!(!c.args[0].wild);
    assert!(c.args[1].wild);
    let c = parse("ls *.rs", false);
    assert!(!c.args[1].wild);
    let c = parse("ls '*.rs'", true);
    assert!(!c.args[1].wild);
}

#[test]
fn interpolates_unquoted_text() {
    assert_eq!(texts(&parse("echo $FOO ~/x", true)), vec!["echo", "bar", "/h/x"]);
}

#[test]
fn escaped_name_lexes_back() {
    let name = "my file (1);a|b&$x<y>";
    let escaped = simterm::escape::esc_string_blanks(name.to_string());
    let c = parse(&escaped, true);
    assert_eq!(texts(&c), vec![name]);
    assert!(c.piped.is_empty());
    assert_eq!(c.out_file, "");
}

#[test]
fn parses_double_quotes_with_separators() {
    assert_eq!(texts(&parse("\"a | b > $FOO\"", true)), vec!["a | b > bar"]);
}
