use yarlint::keyed::TextMap;

#[test]
fn a_value_reads_back_after_insertion() {
    let mut map: TextMap<String, u32> = TextMap::new();
    map.insert("b".to_string(), 2);
    map.insert("a".to_string(), 1);

    assert_eq!(map.get("a"), Some(&1));
    assert_eq!(map.get("b"), Some(&2));
    assert_eq!(map.get("c"), None);
    assert_eq!(map.len(), 2);
}

#[test]
fn inserting_an_existing_key_replaces_its_value() {
    let mut map: TextMap<&'static str, u32> = TextMap::new();
    map.insert("k", 1);
    map.insert("k", 2);

    assert_eq!(map.len(), 1);
    assert_eq!(map.get("k"), Some(&2));
}

#[test]
fn keys_are_kept_in_byte_order() {
    let mut map: TextMap<String, u32> = TextMap::new();
    for (i, key) in ["prefix", "Zeta", "ignored_tags", "strict", "é", "a"].iter().enumerate() {
        map.insert(key.to_string(), i as u32);
    }

    let keys: Vec<&str> = (0..map.len()).map(|i| map.key_at(i).as_str()).collect();
    assert_eq!(keys, vec!["Zeta", "a", "ignored_tags", "prefix", "strict", "é"]);
    assert_eq!(map.position("strict"), Some(4));
    assert!(!map.contains_key("missing"));
}
