use sketchgames::strmap::StrMap;

#[test]
fn strmap_insert_get_remove() {
    let mut m: StrMap<i32> = StrMap::new();
    m.insert("a".to_string(), 1);
    m.insert("b".to_string(), 2);
    m.insert("a".to_string(), 3);
    assert_eq!(m.len(), 2);
    assert_eq!(m.get(&"a".to_string()), Some(&3));
    assert_eq!(m.key_at(0), "a");
    assert_eq!(m.key_at(1), "b");
    m.remove(&"a".to_string());
    assert_eq!(m.len(), 1);
    assert_eq!(m.get(&"a".to_string()), None);
    assert!(m.contains_key(&"b".to_string()));
    m.remove(&"zzz".to_string());
    assert_eq!(m.len(), 1);
}
