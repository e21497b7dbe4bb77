use mdns_registry::record::ServiceRecord;
use mdns_registry::reducer::Event;
use mdns_registry::session::{DiscoverySession, SessionState};

fn resolved(id: &str, addr: &str) -> Event {
    Event::Resolved(
        ServiceRecord::from_resolved(
            id.to_string(),
            vec![addr.to_string()],
            5001,
            Vec::new(),
        )
        .expect("one address"),
    )
}

#[test]
fn start_qualifies_a_bare_service_type() {
    let mut s = DiscoverySession::new();
    assert_eq!(s.state(), SessionState::Idle);
    let q = s.start("_my-service._udp");
    assert_eq!(q, "_my-service._udp.local.");
    assert_eq!(s.service_type(), "_my-service._udp.local.");
    assert_eq!(s.state(), SessionState::Browsing);
}

#[test]
fn start_keeps_a_qualified_service_type() {
    let mut s = DiscoverySession::new();
    let q = s.start("_my-service._udp.local.");
    assert_eq!(q, "_my-service._udp.local.");
}

#[test]
fn browse_scenario_ends_with_only_b() {
    let mut s = DiscoverySession::new();
    s.start("_spkr._udp");
    assert!(s.handle_event(resolved("A", "10.0.0.1")));
    assert!(s.handle_event(resolved("B", "10.0.0.2")));
    assert!(s.handle_event(Event::Removed("A".to_string())));
    assert_eq!(s.published_count(), 3);
    assert_eq!(s.registry().len(), 1);
    assert!(s.registry().contains(&"B".to_string()));
    assert!(!s.registry().contains(&"A".to_string()));
    let snap = s.take_next_snapshot().expect("a snapshot is pending");
    assert_eq!(snap.len(), 1);
    assert!(snap.contains(&"B".to_string()));
    let held = snap.state().get(&"B".to_string()).expect("B is live");
    assert_eq!(held.address(), "10.0.0.2");
}

#[test]
fn events_without_change_publish_nothing() {
    let mut s = DiscoverySession::new();
    s.start("_spkr._udp");
    assert!(!s.handle_event(Event::Other("search started".to_string())));
    assert!(!s.handle_event(Event::Removed("ghost".to_string())));
    assert_eq!(s.published_count(), 0);
    assert!(s.take_next_snapshot().is_none());
}

#[test]
fn stop_closes_and_releases_the_consumer() {
    let mut s = DiscoverySession::new();
    s.start("_spkr._udp");
    s.handle_event(resolved("A", "10.0.0.1"));
    s.stop();
    assert_eq!(s.state(), SessionState::Closed);
    assert!(s.take_next_snapshot().is_none());
}
