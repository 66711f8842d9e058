use sketchgames::file_cleaner::{can_compare, can_find_trigrams, find_trigrams, handle_file, is_similar};

#[test]
fn trigrams_are_counted_after_normalizing() {
    let t = find_trigrams("The cat's hat\tthe CATS hat the cats hat x");
    // words: the cats hat the cats hat the cats hat x (10 words, 7 trigrams)
    assert_eq!(t.len(), 3);
    assert_eq!(t.get(&"the cats hat".to_string()), Some(&3));
    assert_eq!(t.get(&"cats hat the".to_string()), Some(&2));
    assert_eq!(t.get(&"hat the cats".to_string()), Some(&2));
    assert_eq!(t.get(&"cats hat x".to_string()), None);
}

#[test]
fn the_last_trigram_is_left_out() {
    let t = find_trigrams("a b c d");
    assert_eq!(t.len(), 1);
    assert_eq!(t.get(&"a b c".to_string()), Some(&1));
    let t = find_trigrams("a b c");
    assert_eq!(t.len(), 0);
    assert!(can_find_trigrams("a b c"));
}

#[test]
fn short_texts_have_no_trigrams() {
    assert!(can_find_trigrams("a b"));
    assert!(can_find_trigrams(""));
    assert_eq!(find_trigrams("a b").len(), 0);
    assert_eq!(find_trigrams("it's").len(), 0);
    assert_eq!(find_trigrams("").len(), 0);
}

#[test]
fn identical_texts_are_similar() {
    let a = find_trigrams("one two three four five six seven");
    let b = find_trigrams("one two three four five six seven");
    assert!(can_compare(&a, &b));
    assert!(is_similar(&a, &b));
}

#[test]
fn similarity_threshold_is_seventy_percent() {
    // a: 4 trigrams; b shares 3 of them: 300 / 4 = 75 > 70
    let a = find_trigrams("a b c d e f g");
    let b = find_trigrams("a b c d e f x y");
    assert!(is_similar(&a, &b));
    assert!(is_similar(&b, &a));
    // shares 2 of 4: 50
    let c = find_trigrams("a b c d q r s t");
    assert!(!is_similar(&a, &c));
    assert!(!is_similar(&c, &a));
}

#[test]
fn two_empty_trackers_cannot_be_compared() {
    let a = find_trigrams("a b c");
    let b = find_trigrams("d e f");
    assert!(!can_compare(&a, &b));
}

#[test]
fn handle_file_lists_the_copies() {
    let mine = find_trigrams("a b c d e f g");
    let others = vec![
        find_trigrams("a b c d e f g"),
        find_trigrams("z y x w v u t"),
        find_trigrams("a b c d e f x y"),
    ];
    assert_eq!(handle_file(&mine, &others), vec![0, 2]);
}

#[test]
fn comparing_and_similarity_do_not_depend_on_order() {
    let a = find_trigrams("one two three four five six seven eight");
    let b = find_trigrams("one two three four five nine ten eleven");
    let e = find_trigrams("a b");
    assert!(can_compare(&a, &b));
    assert!(can_compare(&b, &a));
    assert_eq!(is_similar(&a, &b), is_similar(&b, &a));
    assert!(can_compare(&a, &e));
    assert!(can_compare(&e, &a));
    assert_eq!(is_similar(&a, &e), is_similar(&e, &a));
    assert!(!is_similar(&a, &e));
}
