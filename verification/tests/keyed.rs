use clearclip::keyed::TextMap;

#[test]
fn text_map_reads_what_was_written() {
    let mut m: TextMap<u32> = TextMap::new();
    assert!(m.get("a").is_none());
    m.insert("a".into(), 1);
    m.insert("b".into(), 2);
    m.insert("a".into(), 3);
    assert_eq!(m.get("a"), Some(&3));
    assert_eq!(m.get("b"), Some(&2));
    assert!(m.contains_key("b"));
    assert_eq!(m.entries().len(), 2);
    assert_eq!(m.remove("a"), Some(3));
    assert_eq!(m.remove("a"), None);
    assert!(!m.contains_key("a"));
    assert_eq!(m.entries().len(), 1);
}
