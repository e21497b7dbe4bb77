use mdns_registry::hostcfg::check_wpa_supplicant_file;
use mdns_registry::text::{concatenate_address_strings, create_address_port_string, eq_ignore_case};

#[test]
fn address_and_port_join_with_a_colon() {
    assert_eq!(
        create_address_port_string("10.0.0.1".to_string(), 5001),
        "10.0.0.1:5001"
    );
    assert_eq!(create_address_port_string("fe80::1".to_string(), 0), "fe80::1:0");
    assert_eq!(
        create_address_port_string("a".to_string(), 65535),
        "a:65535"
    );
}

#[test]
fn addresses_join_with_commas_and_no_trailing_comma() {
    assert_eq!(concatenate_address_strings(Vec::new()), "");
    assert_eq!(concatenate_address_strings(vec!["10.0.0.1:1".to_string()]), "10.0.0.1:1");
    assert_eq!(
        concatenate_address_strings(vec![
            "10.0.0.1:1".to_string(),
            "10.0.0.2:2".to_string(),
            "10.0.0.3:3".to_string(),
        ]),
        "10.0.0.1:1,10.0.0.2:2,10.0.0.3:3"
    );
}

#[test]
fn case_insensitive_comparison_folds_ascii_only() {
    assert!(eq_ignore_case("PATH", "path"));
    assert!(eq_ignore_case("PaTh", "pAtH"));
    assert!(!eq_ignore_case("path", "paths"));
    assert!(!eq_ignore_case("path", "pith"));
}

#[test]
fn wpa_supplicant_probe_answers() {
    // The answer depends on the host; the probe must simply answer.
    let _present = check_wpa_supplicant_file();
}
