use simterm::escape::{esc_string_blanks, unescape};
use simterm::text::{split_ascii_whitespace, split_once, trim, trim_quotes, has_char, chars_of};

#[test]
fn unescape_removes_escaping_of_blanks_and_backslashes() {
    assert_eq!(unescape("my\\ file"), "my file");
    assert_eq!(unescape("a\\\\b"), "a\\b");
    assert_eq!(unescape("x\\:y\\!z"), "x:y!z");
}

#[test]
fn unescape_keeps_other_escapes() {
    assert_eq!(unescape("a\\xb"), "a\\xb");
    assert_eq!(unescape("q\\\"t"), "q\\\"t");
}

#[test]
fn unescape_drops_trailing_backslash() {
    assert_eq!(unescape("end\\"), "end");
    assert_eq!(unescape(""), "");
}

#[test]
fn esc_string_blanks_escapes_metacharacters() {
    assert_eq!(esc_string_blanks("a b".to_string()), "a\\ b");
    assert_eq!(esc_string_blanks("a$b'c".to_string()), "a\\$b\\'c");
    assert_eq!(esc_string_blanks("(x|y);&<>\"".to_string()), "\\(x\\|y\\)\\;\\&\\<\\>\\\"");
    assert_eq!(esc_string_blanks("plain.txt".to_string()), "plain.txt");
}

#[test]
fn unescape_undoes_escaping_of_blanks() {
    let plain = "my file\\name";
    assert_eq!(unescape(&esc_string_blanks(plain.to_string())), plain);
}

#[test]
fn trim_removes_unicode_white_space() {
    assert_eq!(trim(" \t a b \n"), "a b");
    assert_eq!(trim("\u{3000}x\u{00a0}"), "x");
    assert_eq!(trim("   "), "");
}

#[test]
fn trim_quotes_removes_quotes_and_blanks() {
    assert_eq!(trim_quotes(" 'ls -l' "), "ls -l");
    assert_eq!(trim_quotes("\"a\""), "a");
    assert_eq!(trim_quotes("a' b"), "a' b");
}

#[test]
fn split_once_splits_at_first() {
    assert_eq!(split_once("A=1=2", '='), Some(("A".to_string(), "1=2".to_string())));
    assert_eq!(split_once("=x", '='), Some(("".to_string(), "x".to_string())));
    assert_eq!(split_once("none", '='), None);
}

#[test]
fn split_ascii_whitespace_drops_empty_runs() {
    assert_eq!(split_ascii_whitespace("  ls \t-l\n a "), vec!["ls", "-l", "a"]);
    assert_eq!(split_ascii_whitespace(""), Vec::<String>::new());
}

#[test]
fn char_helpers() {
    assert!(has_char("a*b", '*'));
    assert!(!has_char("ab", '*'));
    assert_eq!(chars_of("héllo"), vec!['h', 'é', 'l', 'l', 'o']);
}

#[test]
fn white_space_matches_std() {
    for u in 0u32..0x110000 {
        if let Some(c) = char::from_u32(u) {
            assert_eq!(simterm::text::is_whitespace(c), c.is_whitespace(), "{u:#x}");
        }
    }
}
