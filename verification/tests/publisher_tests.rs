use mdns_registry::publisher::SnapshotPublisher;
use mdns_registry::record::ServiceRecord;
use mdns_registry::registry::Registry;

fn registry_with(ids: &[&str]) -> Registry {
    let mut reg = Registry::new();
    for id in ids {
        reg.insert(ServiceRecord::new(
            id.to_string(),
            "10.0.0.1".to_string(),
            5001,
            Vec::new(),
        ));
    }
    reg
}

#[test]
fn latest_wins_over_a_burst() {
    let mut p = SnapshotPublisher::new();
    p.publish(registry_with(&["a"]));
    p.publish(registry_with(&["a", "b"]));
    p.publish(registry_with(&["b"]));
    assert_eq!(p.published_count(), 3);
    let snap = p.try_next().expect("a snapshot is pending");
    // Only the most recent state is delivered.
    assert_eq!(snap.stamp(), 3);
    assert_eq!(snap.len(), 1);
    assert!(snap.contains(&"b".to_string()));
    assert!(!snap.contains(&"a".to_string()));
    // Nothing new since: the consumer is not handed the same state again.
    assert!(p.try_next().is_none());
}

#[test]
fn deliveries_are_in_chronological_order() {
    let mut p = SnapshotPublisher::new();
    p.publish(registry_with(&["a"]));
    let first = p.try_next().expect("pending");
    p.publish(registry_with(&["a", "b"]));
    p.publish(registry_with(&[]));
    let second = p.try_next().expect("pending");
    assert!(first.stamp() < second.stamp());
    assert_eq!(second.stamp(), 3);
}

#[test]
fn rapid_publishing_never_blocks_the_producer() {
    let mut p = SnapshotPublisher::new();
    for _ in 0..1000 {
        p.publish(registry_with(&["a"]));
    }
    assert_eq!(p.published_count(), 1000);
    let snap = p.try_next().expect("pending");
    assert_eq!(snap.stamp(), 1000);
}

#[test]
fn nothing_pending_before_any_publish() {
    let mut p = SnapshotPublisher::new();
    assert!(p.try_next().is_none());
    assert_eq!(p.published_count(), 0);
}

#[test]
fn close_stops_delivery() {
    let mut p = SnapshotPublisher::new();
    p.publish(registry_with(&["a"]));
    p.close();
    assert!(p.is_closed());
    assert!(p.try_next().is_none());
}
