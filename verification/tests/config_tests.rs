use zenoh_unicast::config::{
    ConfigProperties, TransportManagerConfigBuilderUnicast, TransportManagerConfigUnicast,
    parse_u64_str, parse_usize_str,
};
use zenoh_unicast::types::ZError;

#[test]
fn default_builder_settles_to_library_defaults() {
    let c = TransportManagerConfigUnicast::builder().build();
    assert_eq!(c.lease, 10000);
    assert_eq!(c.keep_alive, 2500);
    assert_eq!(c.open_timeout, 10000);
    assert_eq!(c.open_pending, 1024);
    assert_eq!(c.max_transports, usize::MAX);
    assert_eq!(c.max_links, usize::MAX);
    assert_eq!(c.peer_authenticator.len(), 1);
    assert_eq!(c.peer_authenticator[0].id, 0);
    assert_eq!(c.link_authenticator.len(), 1);
    assert_eq!(c.link_authenticator[0].id, 0);
}

#[test]
fn builder_setters_accumulate() {
    let c = TransportManagerConfigUnicast::builder()
        .lease(77)
        .keep_alive(11)
        .open_timeout(50)
        .open_pending(2)
        .max_transports(3)
        .max_links(4)
        .build();
    assert_eq!(c.lease, 77);
    assert_eq!(c.keep_alive, 11);
    assert_eq!(c.open_timeout, 50);
    assert_eq!(c.open_pending, 2);
    assert_eq!(c.max_transports, 3);
    assert_eq!(c.max_links, 4);
}

#[test]
fn from_properties_reads_recognised_keys() {
    let mut p = ConfigProperties::new();
    p.insert("link_lease", "107");
    p.insert("link_keep_alive", "33");
    p.insert("open_timeout", "650");
    p.insert("open_incoming_pending", "9");
    p.insert("max_sessions", "5");
    p.insert("max_links", "16");
    let b = TransportManagerConfigBuilderUnicast::default();
    let b = b.from_properties(&p).unwrap();
    let c = b.build();
    assert_eq!(c.lease, 107);
    assert_eq!(c.keep_alive, 33);
    assert_eq!(c.open_timeout, 650);
    assert_eq!(c.open_pending, 9);
    assert_eq!(c.max_transports, 5);
    assert_eq!(c.max_links, 16);
}

#[test]
fn from_properties_fails_naming_key_and_value() {
    let mut p = ConfigProperties::new();
    p.insert("link_lease", "107");
    p.insert("open_timeout", "fast");
    let b = TransportManagerConfigBuilderUnicast::default();
    match b.from_properties(&p) {
        Err(ZError::ValueDecodingFailed { key, value }) => {
            assert_eq!(key, "open_timeout");
            assert_eq!(value, "fast");
        }
        _ => panic!("expected a value-decoding failure"),
    }
}

#[test]
fn from_properties_ignores_unknown_keys() {
    let mut p1 = ConfigProperties::new();
    p1.insert("link_lease", "107");
    let mut p2 = ConfigProperties::new();
    p2.insert("link_lease", "107");
    p2.insert("multicast_scouting", "true");
    p2.insert("whatever", "else");
    let b1 = TransportManagerConfigBuilderUnicast::default()
        .from_properties(&p1)
        .unwrap()
        .build();
    let b2 = TransportManagerConfigBuilderUnicast::default()
        .from_properties(&p2)
        .unwrap()
        .build();
    assert_eq!(b1.lease, b2.lease);
    assert_eq!(b1.keep_alive, b2.keep_alive);
    assert_eq!(b1.open_timeout, b2.open_timeout);
    assert_eq!(b1.open_pending, b2.open_pending);
    assert_eq!(b1.max_transports, b2.max_transports);
    assert_eq!(b1.max_links, b2.max_links);
}

#[test]
fn from_properties_is_idempotent() {
    let mut p = ConfigProperties::new();
    p.insert("link_lease", "107");
    p.insert("max_sessions", "5");
    let once = TransportManagerConfigBuilderUnicast::default()
        .from_properties(&p)
        .unwrap();
    let twice = once.from_properties(&p).unwrap();
    let c = twice.build();
    assert_eq!(c.lease, 107);
    assert_eq!(c.max_transports, 5);
    assert_eq!(c.keep_alive, 2500);
}

#[test]
fn parse_accepts_plain_and_signed_digits() {
    assert_eq!(parse_u64_str(&"0".to_string()), Some(0));
    assert_eq!(parse_u64_str(&"42".to_string()), Some(42));
    assert_eq!(parse_u64_str(&"+42".to_string()), Some(42));
    assert_eq!(
        parse_u64_str(&"18446744073709551615".to_string()),
        Some(u64::MAX)
    );
}

#[test]
fn parse_rejects_empty_junk_and_overflow() {
    assert_eq!(parse_u64_str(&"".to_string()), None);
    assert_eq!(parse_u64_str(&"+".to_string()), None);
    assert_eq!(parse_u64_str(&"4x2".to_string()), None);
    assert_eq!(parse_u64_str(&"-1".to_string()), None);
    assert_eq!(parse_u64_str(&"18446744073709551616".to_string()), None);
    assert_eq!(parse_usize_str(&"12".to_string()), Some(12));
    assert_eq!(parse_usize_str(&"a".to_string()), None);
}
