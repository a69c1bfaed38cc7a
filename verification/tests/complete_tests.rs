use simterm::complete::{
    common_prefix_cuts_cleanly, complete_name, completion_candidates, completion_line,
    completion_target, longest_common_prefix, platform_starts_with, starts_with_ignore_case_ascii, EntryInfo,
};

fn s(v: &[&str]) -> Vec<String> {
    v.iter().map(|x| x.to_string()).collect()
}

fn entry(name: &str, is_dir: bool, is_exec: bool) -> EntryInfo {
    EntryInfo { name: name.to_string(), is_dir, is_exec }
}

#[test]
fn prefix_tests_by_platform() {
    assert!(starts_with_ignore_case_ascii("ReadMe.md", "read"));
    assert!(!platform_starts_with("ReadMe.md", "read", false));
    assert!(platform_starts_with("ReadMe.md", "Read", false));
    assert!(!platform_starts_with("ab", "abc", true));
}

#[test]
fn longest_common_prefix_of_candidates() {
    assert_eq!(longest_common_prefix(s(&["flower", "flow", "flight"])), "fl");
    assert_eq!(longest_common_prefix(s(&[])), "");
    assert_eq!(longest_common_prefix(s(&["abc"])), "abc");
    assert_eq!(longest_common_prefix(s(&["abc", "abd", "x"])), "");
    assert_eq!(longest_common_prefix(s(&["src/", "src/"])), "src/");
}

#[test]
fn complete_name_chooses_by_candidates() {
    let entries = vec![entry("docs", true, true), entry("dotfile", false, false), entry("music", true, true)];
    assert_eq!(complete_name("/home", "/", "do", &entries, false, false), "/home/do\x07");
    assert_eq!(complete_name("/home", "/", "mu", &entries, false, false), "/home/music/");
    assert_eq!(complete_name("/home", "/", "zz", &entries, false, false), "/home/zz");
    assert_eq!(complete_name("/home", "/", "do", &entries, true, false), "/home/docs/");
}

#[test]
fn complete_name_ignoring_case() {
    let entries = vec![entry("Program Files", true, true)];
    assert_eq!(complete_name("C:", "\\", "pro", &entries, false, true), "C:\\Program Files\\");
}

#[test]
fn completion_target_prefers_redirections() {
    let cmd = s(&["cat", "a"]);
    assert_eq!(completion_target(&cmd, &"".to_string(), &"".to_string()), "a");
    assert_eq!(completion_target(&cmd, &"in".to_string(), &"".to_string()), "in");
    assert_eq!(completion_target(&cmd, &"in".to_string(), &"out".to_string()), "out");
}

#[test]
fn completion_line_rebuilds_command() {
    let piped = vec![s(&["ls", "-l"])];
    let cmd = s(&["grep", "fo"]);
    let line = completion_line(&piped, &cmd, &"".to_string(), &"".to_string(), false, "foo bar".to_string());
    assert_eq!(line, "\rls -l|grep foo\\ bar");
}

#[test]
fn completion_line_with_redirections() {
    let cmd = s(&["cat", "a b"]);
    let line = completion_line(&vec![], &cmd, &"".to_string(), &"o".to_string(), false, "out".to_string());
    assert_eq!(line, "\rcat a\\ b> out");
    let line = completion_line(&vec![], &cmd, &"in".to_string(), &"o".to_string(), true, "out".to_string());
    assert_eq!(line, "\rcat a\\ b<in>> out");
    let line = completion_line(&vec![], &cmd, &"i".to_string(), &"".to_string(), false, "i".to_string());
    assert_eq!(line, "\rcat a\\ b< i");
    let line = completion_line(&vec![], &s(&["ls"]), &"".to_string(), &"".to_string(), false, "/tmp/".to_string());
    assert_eq!(line, "\r /tmp/");
}

#[test]
fn common_prefix_cuts_by_bytes() {
    assert_eq!(longest_common_prefix(s(&["éab", "éac"])), "é");
    assert_eq!(longest_common_prefix(s(&["aébx", "aéby"])), "aé");
    assert_eq!(longest_common_prefix(s(&["é", "é"])), "é");
    assert_eq!(longest_common_prefix(s(&["日本", "日本"])), "日本");
    assert!(!common_prefix_cuts_cleanly(&s(&["日本", "日本語"])));
    assert!(common_prefix_cuts_cleanly(&s(&["éab", "éac"])));
    assert!(common_prefix_cuts_cleanly(&s(&["flower", "flow"])));
    assert!(!common_prefix_cuts_cleanly(&s(&["aéx", "aéy"])));
    assert!(!common_prefix_cuts_cleanly(&s(&["é", "éa"])));
}

#[test]
fn executable_completion_offers_directories() {
    let entries = vec![
        entry("bin", true, false),
        entry("build.sh", false, true),
        entry("build.txt", false, false),
    ];
    assert_eq!(completion_candidates("/", "b", &entries, true, false), s(&["bin/", "build.sh"]));
    assert_eq!(completion_candidates("/", "bu", &entries, false, false), s(&["build.sh", "build.txt"]));
    assert_eq!(complete_name("/usr", "/", "bu", &entries, true, false), "/usr/build.sh");
    assert_eq!(complete_name("/usr", "/", "bi", &entries, true, false), "/usr/bin/");
}
