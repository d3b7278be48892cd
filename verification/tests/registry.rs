use tagcore::commit_id::CommitId;
use tagcore::name_order::{order_names, same_text, NameOrder};
use tagcore::ref_target::RefTarget;
use tagcore::registry::TagRegistry;

fn commit(byte: u8) -> CommitId {
    CommitId::new(vec![byte; 20])
}

fn registry_with(names: &[&str]) -> TagRegistry {
    let mut registry = TagRegistry::new();
    for (i, name) in names.iter().enumerate() {
        registry.set(name, RefTarget::normal(commit(i as u8)));
    }
    registry
}

#[test]
fn new_registry_is_empty() {
    let registry = TagRegistry::new();
    assert!(registry.is_empty());
    assert_eq!(registry.len(), 0);
    assert_eq!(registry.names(), Vec::<String>::new());
    assert_eq!(registry.lookup("v1"), RefTarget::Absent);
    assert!(!registry.contains("v1"));
}

#[test]
fn lookup_of_unknown_name_is_absent() {
    let registry = registry_with(&["v1", "v3"]);
    assert_eq!(registry.lookup("v2"), RefTarget::Absent);
    assert_eq!(registry.lookup(""), RefTarget::Absent);
    assert_eq!(registry.lookup("v"), RefTarget::Absent);
    assert_eq!(registry.lookup("v10"), RefTarget::Absent);
    assert_eq!(registry.lookup("zzz"), RefTarget::Absent);
}

#[test]
fn set_then_lookup_returns_the_target() {
    let mut registry = TagRegistry::new();
    registry.set("v1", RefTarget::normal(commit(7)));
    assert_eq!(registry.lookup("v1"), RefTarget::Normal(commit(7)));
    assert!(registry.contains("v1"));
    assert_eq!(registry.len(), 1);
    assert!(!registry.is_empty());
}

#[test]
fn set_on_an_existing_name_replaces_its_target() {
    let mut registry = registry_with(&["a", "b", "c"]);
    registry.set("b", RefTarget::normal(commit(9)));
    assert_eq!(registry.len(), 3);
    assert_eq!(registry.lookup("a"), RefTarget::Normal(commit(0)));
    assert_eq!(registry.lookup("b"), RefTarget::Normal(commit(9)));
    assert_eq!(registry.lookup("c"), RefTarget::Normal(commit(2)));
    assert_eq!(registry.names(), vec!["a", "b", "c"]);
}

#[test]
fn set_to_absent_removes_the_tag() {
    let mut registry = registry_with(&["a", "b", "c"]);
    registry.set("b", RefTarget::absent());
    assert_eq!(registry.names(), vec!["a", "c"]);
    assert_eq!(registry.lookup("b"), RefTarget::Absent);
    assert!(!registry.contains("b"));
    registry.set("nothing", RefTarget::Absent);
    assert_eq!(registry.names(), vec!["a", "c"]);
}

#[test]
fn conflicted_target_is_kept_and_read_back() {
    let mut registry = TagRegistry::new();
    let conflict = RefTarget::Conflicted(vec![commit(1), commit(2)]);
    registry.set("torn", conflict.clone());
    let found = registry.lookup("torn");
    assert_eq!(found, conflict);
    assert!(found.is_present());
    assert!(found.has_conflict());
    assert_eq!(found.as_normal(), None);
}

#[test]
fn conflict_without_commits_is_not_absent() {
    let mut registry = TagRegistry::new();
    registry.set("odd", RefTarget::Conflicted(vec![]));
    assert!(registry.contains("odd"));
    assert_ne!(registry.lookup("odd"), RefTarget::Absent);
    assert!(registry.lookup("odd").is_present());
}

#[test]
fn names_come_sorted_whatever_the_order_of_insertion() {
    let registry = registry_with(&["v2", "v1", "alpha"]);
    assert_eq!(registry.names(), vec!["alpha", "v1", "v2"]);
    let reversed = registry_with(&["e", "d", "c", "b", "a"]);
    assert_eq!(reversed.names(), vec!["a", "b", "c", "d", "e"]);
    let middle = registry_with(&["a", "e", "c", "b", "d"]);
    assert_eq!(middle.names(), vec!["a", "b", "c", "d", "e"]);
}

#[test]
fn a_prefix_sorts_before_its_extensions() {
    let registry = registry_with(&["v10", "v1", "v", "v1.0"]);
    assert_eq!(registry.names(), vec!["v", "v1", "v1.0", "v10"]);
}

#[test]
fn listing_order_is_that_of_strings_in_a_sorted_map() {
    let names = [
        "z", "Z", "a", "B", "ab", "a-b", "a_b", "é", "ß", "日本", "\u{FFFD}", "\u{1F600}", "0",
        "10", "9", "~", " ", "v1.0", "v1", "release/1",
    ];
    let registry = registry_with(&names);
    let mut map = std::collections::BTreeMap::new();
    for name in names {
        map.insert(name.to_string(), ());
    }
    let expected: Vec<String> = map.keys().cloned().collect();
    assert_eq!(registry.names(), expected);
    assert_eq!(registry.len(), names.len());
    for name in names {
        assert!(registry.contains(name));
    }
}

#[test]
fn many_tags_are_all_found_again() {
    let mut registry = TagRegistry::new();
    for i in 0..200u32 {
        let name = format!("tag-{}", (i * 7919) % 1000);
        registry.set(&name, RefTarget::normal(CommitId::new(i.to_be_bytes().to_vec())));
    }
    for i in 0..200u32 {
        let name = format!("tag-{}", (i * 7919) % 1000);
        assert_eq!(
            registry.lookup(&name),
            RefTarget::Normal(CommitId::new(i.to_be_bytes().to_vec()))
        );
    }
    let names = registry.names();
    let mut sorted = names.clone();
    sorted.sort();
    sorted.dedup();
    assert_eq!(names, sorted);
    assert_eq!(registry.len(), 200);
}

#[test]
fn clone_is_equal_and_independent() {
    let registry = registry_with(&["b", "a"]);
    let mut copy = registry.clone();
    assert_eq!(copy, registry);
    copy.set("c", RefTarget::normal(commit(3)));
    assert_eq!(registry.names(), vec!["a", "b"]);
    assert_eq!(copy.names(), vec!["a", "b", "c"]);
    assert_eq!(registry.lookup("c"), RefTarget::Absent);
}

#[test]
fn relisting_the_same_view_gives_the_same_result() {
    let registry = registry_with(&["v2", "v1", "alpha"]);
    assert_eq!(registry.list(&vec![]), registry.list(&vec![]));
    assert_eq!(registry.names(), registry.list(&vec![]));
}

#[test]
fn order_names_is_lexicographic_by_character() {
    assert_eq!(order_names("a", "b"), NameOrder::Before);
    assert_eq!(order_names("b", "a"), NameOrder::After);
    assert_eq!(order_names("abc", "abc"), NameOrder::Same);
    assert_eq!(order_names("", ""), NameOrder::Same);
    assert_eq!(order_names("", "a"), NameOrder::Before);
    assert_eq!(order_names("a", ""), NameOrder::After);
    assert_eq!(order_names("ab", "abc"), NameOrder::Before);
    assert_eq!(order_names("abd", "abc"), NameOrder::After);
    assert_eq!(order_names("Z", "a"), NameOrder::Before);
    assert_eq!(order_names("z", "é"), NameOrder::Before);
    assert_eq!(order_names("\u{FFFD}", "\u{1F600}"), NameOrder::Before);
}

#[test]
fn order_names_agrees_with_the_order_of_str() {
    let texts = ["", "a", "A", "ab", "b", "é", "e", "日本", "日", "\u{1F600}", "\u{FFFD}", "~"];
    for a in texts {
        for b in texts {
            let expected = match a.cmp(b) {
                std::cmp::Ordering::Less => NameOrder::Before,
                std::cmp::Ordering::Equal => NameOrder::Same,
                std::cmp::Ordering::Greater => NameOrder::After,
            };
            assert_eq!(order_names(a, b), expected, "{a:?} against {b:?}");
        }
    }
}

#[test]
fn same_text_is_equality() {
    assert!(same_text("glob", "glob"));
    assert!(!same_text("glob", "Glob"));
    assert!(!same_text("glob", "glo"));
    assert!(!same_text("", "a"));
    assert!(same_text("", ""));
}
