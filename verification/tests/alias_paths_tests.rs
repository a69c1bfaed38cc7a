use simterm::alias::expand_alias;
use simterm::paths::{remove_redundant_components, PartKind};
use simterm::strmap::StrMap;

fn s(v: &[&str]) -> Vec<String> {
    v.iter().map(|x| x.to_string()).collect()
}

fn setup() -> (StrMap<Vec<String>>, StrMap<String>) {
    let mut aliases = StrMap::new();
    aliases.insert("ll".to_string(), s(&["ls", "-l", "$HOME"]));
    aliases.insert("none".to_string(), s(&[]));
    let mut env = StrMap::new();
    env.insert("HOME".to_string(), "/h".to_string());
    (aliases, env)
}

#[test]
fn expands_alias_and_interpolates_rest() {
    let (aliases, env) = setup();
    let r = expand_alias(&aliases, s(&["ll", "/tmp"]), &env, "1", &None);
    assert_eq!(r, s(&["ls", "-l", "/h", "/tmp"]));
}

#[test]
fn backslash_bypasses_alias() {
    let (aliases, env) = setup();
    assert_eq!(expand_alias(&aliases, s(&["\\ll"]), &env, "1", &None), s(&["ll"]));
    assert_eq!(expand_alias(&aliases, s(&["cat", "x"]), &env, "1", &None), s(&["cat", "x"]));
}

#[test]
fn empty_alias_leaves_arguments() {
    let (aliases, env) = setup();
    assert_eq!(expand_alias(&aliases, s(&["none", "a"]), &env, "1", &None), s(&["a"]));
}

#[test]
fn normalizes_components() {
    assert_eq!(remove_redundant_components(&vec![PartKind::Anchor, PartKind::Name, PartKind::Current, PartKind::Name, PartKind::Parent, PartKind::Name]), vec![0, 1, 5]);
    assert_eq!(remove_redundant_components(&vec![PartKind::Parent, PartKind::Name]), vec![1]);
    assert_eq!(remove_redundant_components(&vec![PartKind::Anchor, PartKind::Parent, PartKind::Name]), vec![0, 2]);
    assert_eq!(remove_redundant_components(&vec![PartKind::Name, PartKind::Parent]), Vec::<usize>::new());
}

#[test]
fn strmap_insert_replace_remove() {
    let mut m: StrMap<String> = StrMap::new();
    m.insert("A".to_string(), "1".to_string());
    m.insert("B".to_string(), "2".to_string());
    m.insert("A".to_string(), "3".to_string());
    assert_eq!(m.len(), 2);
    assert_eq!(m.get("A"), Some(&"3".to_string()));
    assert_eq!(m.key_at(0), "A");
    m.remove("A");
    assert_eq!(m.get("A"), None);
    assert!(m.contains("B"));
    assert_eq!(m.len(), 1);
}

#[test]
fn normalizing_twice_changes_nothing() {
    let kinds = vec![PartKind::Anchor, PartKind::Name, PartKind::Parent, PartKind::Parent, PartKind::Name, PartKind::Current, PartKind::Name];
    let kept = remove_redundant_components(&kinds);
    assert_eq!(kept, vec![0, 4, 6]);
    let again: Vec<PartKind> = kept.iter().map(|&i| kinds[i]).collect();
    assert_eq!(remove_redundant_components(&again), vec![0, 1, 2]);
}
