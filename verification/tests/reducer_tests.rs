use mdns_registry::record::ServiceRecord;
use mdns_registry::reducer::{reduce, Event};
use mdns_registry::registry::Registry;

fn record(id: &str, addr: &str) -> ServiceRecord {
    ServiceRecord::new(id.to_string(), addr.to_string(), 5001, Vec::new())
}

#[test]
fn resolve_inserts_and_always_changes() {
    let mut reg = Registry::new();
    assert!(reduce(&mut reg, Event::Resolved(record("a", "10.0.0.1"))));
    assert!(reg.contains(&"a".to_string()));
    assert_eq!(reg.len(), 1);
    // A second resolve of the same instance is still a visible change.
    assert!(reduce(&mut reg, Event::Resolved(record("a", "10.0.0.1"))));
    assert_eq!(reg.len(), 1);
}

#[test]
fn resolve_replaces_record_in_place() {
    let mut reg = Registry::new();
    reduce(&mut reg, Event::Resolved(record("a", "10.0.0.1")));
    reduce(&mut reg, Event::Resolved(record("a", "10.0.0.9")));
    assert_eq!(reg.len(), 1);
    let held = reg.get(&"a".to_string()).expect("a is live");
    assert_eq!(held.address(), "10.0.0.9");
}

#[test]
fn removal_of_absent_identity_is_a_no_op() {
    let mut reg = Registry::new();
    reduce(&mut reg, Event::Resolved(record("a", "10.0.0.1")));
    let changed = reduce(&mut reg, Event::Removed("b".to_string()));
    assert!(!changed);
    assert_eq!(reg.len(), 1);
    assert!(reg.contains(&"a".to_string()));
}

#[test]
fn removal_of_present_identity_changes() {
    let mut reg = Registry::new();
    reduce(&mut reg, Event::Resolved(record("a", "10.0.0.1")));
    let changed = reduce(&mut reg, Event::Removed("a".to_string()));
    assert!(changed);
    assert_eq!(reg.len(), 0);
    assert!(!reg.contains(&"a".to_string()));
}

#[test]
fn other_events_never_change_the_registry() {
    let mut reg = Registry::new();
    reduce(&mut reg, Event::Resolved(record("a", "10.0.0.1")));
    let changed = reduce(&mut reg, Event::Other("search started".to_string()));
    assert!(!changed);
    assert_eq!(reg.len(), 1);
}

#[test]
fn membership_follows_resolve_then_remove_history() {
    let mut reg = Registry::new();
    reduce(&mut reg, Event::Resolved(record("a", "10.0.0.1")));
    reduce(&mut reg, Event::Resolved(record("b", "10.0.0.2")));
    reduce(&mut reg, Event::Removed("a".to_string()));
    reduce(&mut reg, Event::Resolved(record("a", "10.0.0.3")));
    reduce(&mut reg, Event::Removed("b".to_string()));
    // a was re-resolved after its removal; b's last event was a removal.
    assert!(reg.contains(&"a".to_string()));
    assert!(!reg.contains(&"b".to_string()));
    assert_eq!(reg.len(), 1);
}
