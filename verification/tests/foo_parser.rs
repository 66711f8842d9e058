use sketchgames::foo_parser::{normalize_file_name, TrigramIndex};

#[test]
fn file_names_are_normalized() {
    assert_eq!(normalize_file_name("Bob's (Copy), v2.TXT"), "bobs copy v2txt");
    assert_eq!(normalize_file_name("ÉTÉ.md"), "ÉtÉmd");
}

#[test]
fn index_collects_files_per_trigram() {
    let mut idx = TrigramIndex::new();
    idx.add_file(&"f1".to_string(), "a b c d e");
    idx.add_file(&"f2".to_string(), "x a b c d");
    idx.add_file(&"f3".to_string(), "a b c d");
    idx.add_file(&"f1".to_string(), "a b c d");
    let shared = idx.shared();
    assert_eq!(shared, vec![("a b c".to_string(), vec!["f1".to_string(), "f2".to_string(), "f3".to_string()])]);
    assert_eq!(idx.longest(), Some(vec!["f1".to_string(), "f2".to_string(), "f3".to_string()]));
}

#[test]
fn empty_index_has_no_longest() {
    let idx = TrigramIndex::new();
    assert_eq!(idx.longest(), None);
    assert!(idx.shared().is_empty());
}

#[test]
fn longest_prefers_the_first_of_equals() {
    let mut idx = TrigramIndex::new();
    idx.add("t1".to_string(), &"a".to_string());
    idx.add("t2".to_string(), &"b".to_string());
    idx.add("t2".to_string(), &"c".to_string());
    idx.add("t3".to_string(), &"d".to_string());
    idx.add("t3".to_string(), &"e".to_string());
    assert_eq!(idx.longest(), Some(vec!["b".to_string(), "c".to_string()]));
}
