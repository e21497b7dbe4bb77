use mdns_registry::announce::{
    AnnounceError, AnnounceState, PublishSession, ServiceDescriptor, UnregisterOutcome,
};

fn descriptor(ty: &str, instance: &str, port: u16) -> ServiceDescriptor {
    ServiceDescriptor {
        service_type: ty.to_string(),
        instance: instance.to_string(),
        host: "mdns-example.local.".to_string(),
        port,
        addresses: Vec::new(),
        attributes: Vec::new(),
    }
}

#[test]
fn announce_round_trip() {
    let mut s = PublishSession::new();
    assert_eq!(s.state(), AnnounceState::Created);
    let identity = s
        .register(&descriptor("_test._udp.local.", "inst1", 5001))
        .expect("a valid descriptor registers");
    assert!(identity.ends_with("inst1._test._udp.local."));
    assert_eq!(identity, "inst1._test._udp.local.");
    assert_eq!(s.state(), AnnounceState::Registered);
    let to_unregister = s.unregister_now();
    assert_eq!(to_unregister, identity);
    assert_eq!(s.state(), AnnounceState::Unregistering);
    let outcome = s.finish_unregister(true);
    assert_eq!(outcome, UnregisterOutcome::Success);
    assert_eq!(s.state(), AnnounceState::Unregistered);
}

#[test]
fn register_with_attributes() {
    let mut s = PublishSession::new();
    let mut d = descriptor("_test._udp.local.", "inst1", 5001);
    d.attributes = vec![
        ("PATH".to_string(), "one".to_string()),
        ("Path".to_string(), "two".to_string()),
        ("PaTh".to_string(), "three".to_string()),
    ];
    let identity = s.register(&d).expect("wire-safe attributes register");
    assert_eq!(identity, "inst1._test._udp.local.");
}

#[test]
fn missing_instance_is_an_invalid_descriptor() {
    let mut s = PublishSession::new();
    let r = s.register(&descriptor("_test._udp.local.", "", 5001));
    assert_eq!(r, Err(AnnounceError::InvalidDescriptor));
    assert_eq!(s.state(), AnnounceState::Created);
}

#[test]
fn missing_type_and_port_are_invalid_descriptors() {
    let mut s = PublishSession::new();
    let r = s.register(&descriptor("", "inst1", 5001));
    assert_eq!(r, Err(AnnounceError::InvalidDescriptor));
    let r2 = s.register(&descriptor("_test._udp.local.", "inst1", 0));
    assert_eq!(r2, Err(AnnounceError::InvalidDescriptor));
}

#[test]
fn attribute_key_with_equals_sign_is_rejected_by_the_collaborator() {
    let mut s = PublishSession::new();
    let mut d = descriptor("_test._udp.local.", "inst1", 5001);
    d.attributes = vec![("bad=key".to_string(), "v".to_string())];
    let r = s.register(&d);
    assert_eq!(r, Err(AnnounceError::RegistrationFailed));
    assert_eq!(s.state(), AnnounceState::Created);
}

#[test]
fn dots_in_the_instance_name_are_escaped() {
    let mut s = PublishSession::new();
    let identity = s
        .register(&descriptor("_test._udp.local.", "in.st", 5001))
        .expect("registers");
    assert_eq!(identity, "in\\.st._test._udp.local.");
}

#[test]
fn delayed_unregister_reports_the_delay() {
    let mut s = PublishSession::new();
    let identity = s
        .register(&descriptor("_test._udp.local.", "inst1", 5001))
        .expect("registers");
    let (id, delay_ms) = s.unregister_after(2000);
    assert_eq!(id, identity);
    assert_eq!(delay_ms, 2000);
    assert_eq!(s.state(), AnnounceState::Unregistering);
    let outcome = s.finish_unregister(false);
    assert_eq!(outcome, UnregisterOutcome::Failure);
    assert_eq!(s.state(), AnnounceState::Unregistered);
}
