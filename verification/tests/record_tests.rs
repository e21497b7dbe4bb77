use mdns_registry::record::ServiceRecord;

fn attrs(pairs: &[(&str, &str)]) -> Vec<(String, String)> {
    pairs.iter().map(|(k, v)| (k.to_string(), v.to_string())).collect()
}

#[test]
fn attribute_case_collapse_keeps_first() {
    let rec = ServiceRecord::new(
        "inst._x._udp.local.".to_string(),
        "10.0.0.1".to_string(),
        5001,
        attrs(&[("PATH", "one"), ("Path", "two"), ("PaTh", "three")]),
    );
    assert_eq!(rec.get_attribute("path").as_deref(), Some("one"));
    assert_eq!(rec.get_attribute("PATH").as_deref(), Some("one"));
    assert_eq!(rec.get_attribute("pAtH").as_deref(), Some("one"));
    assert_eq!(rec.get_attribute("other"), None);
}

#[test]
fn attribute_distinct_keys_all_kept() {
    let rec = ServiceRecord::new(
        "i".to_string(),
        "10.0.0.1".to_string(),
        80,
        attrs(&[("a", "1"), ("b", "2"), ("A", "ignored")]),
    );
    assert_eq!(rec.get_attribute("a").as_deref(), Some("1"));
    assert_eq!(rec.get_attribute("B").as_deref(), Some("2"));
}

#[test]
fn from_resolved_picks_first_address() {
    let rec = ServiceRecord::from_resolved(
        "inst._x._udp.local.".to_string(),
        vec!["10.0.0.7".to_string(), "10.0.0.8".to_string()],
        5001,
        Vec::new(),
    )
    .expect("an address is available");
    assert_eq!(rec.address(), "10.0.0.7");
    assert_eq!(rec.identity(), "inst._x._udp.local.");
    assert_eq!(rec.port(), 5001);
}

#[test]
fn from_resolved_without_address_fails() {
    let rec = ServiceRecord::from_resolved("inst".to_string(), Vec::new(), 5001, Vec::new());
    assert!(rec.is_none());
}

#[test]
fn clone_preserves_record() {
    let rec = ServiceRecord::new(
        "id".to_string(),
        "10.0.0.2".to_string(),
        9000,
        attrs(&[("k", "v")]),
    );
    let copy = rec.clone();
    assert_eq!(copy.identity(), "id");
    assert_eq!(copy.address(), "10.0.0.2");
    assert_eq!(copy.port(), 9000);
    assert_eq!(copy.get_attribute("K").as_deref(), Some("v"));
}
