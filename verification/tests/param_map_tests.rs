use dioxus_ipc_bridge::param_map::ParamMap;

#[test]
fn read_after_write() {
    let mut m = ParamMap::new();
    assert_eq!(m.get("a"), None);
    m.insert("a".to_string(), "1".to_string());
    m.insert("b".to_string(), "2".to_string());
    m.insert("a".to_string(), "3".to_string());
    assert_eq!(m.get("a"), Some(&"3".to_string()));
    assert_eq!(m.get("b"), Some(&"2".to_string()));
    assert!(m.contains_key("b"));
    assert!(!m.contains_key("B"));
    assert_eq!(m.get_ignoring_ascii_case("B"), Some(&"2".to_string()));
    assert_eq!(m.entries().len(), 2);
    let c = m.copy();
    assert_eq!(c.entries(), m.entries());
}
