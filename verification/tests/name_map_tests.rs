use deepseek_tui_modes::name_map::NameMap;

#[test]
fn insert_get_remove() {
    let mut m: NameMap<String> = NameMap::new();
    assert!(m.is_empty());
    m.insert("b".to_string(), "1".to_string());
    m.insert("a".to_string(), "2".to_string());
    m.insert("b".to_string(), "3".to_string());
    assert_eq!(m.len(), 2);
    assert_eq!(m.get("b").map(String::as_str), Some("3"));
    assert_eq!(m.names(), vec!["b", "a"]);
    assert_eq!(m.remove("b"), Some("3".to_string()));
    assert_eq!(m.remove("b"), None);
    assert!(!m.contains_key("b"));
    assert_eq!(m.names(), vec!["a"]);
    let (k, v) = m.entry(0);
    assert_eq!((k.as_str(), v.as_str()), ("a", "2"));
}
