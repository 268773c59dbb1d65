use zenoh_unicast::config::TransportManagerConfigUnicast;
use zenoh_unicast::manager::TransportManager;
use zenoh_unicast::types::{Locator, ZError};

fn fresh() -> TransportManager {
    TransportManager::new(TransportManagerConfigUnicast::builder().build())
}

#[test]
fn add_listener_twice_keeps_one_factory() {
    let mut m = fresh();
    let loc = Locator::new("tcp", "127.0.0.1:7447");
    let adv = m.add_listener_unicast(&loc).unwrap();
    assert!(adv.same(&loc));
    match m.add_listener_unicast(&loc) {
        Err(ZError::AlreadyExists { .. }) => {}
        _ => panic!("expected the factory to refuse the duplicate listener"),
    }
    assert_eq!(m.state.protocols.len(), 1);
    assert_eq!(m.get_listeners_unicast().len(), 1);
}

#[test]
fn del_listener_removes_empty_factory() {
    let mut m = fresh();
    let loc = Locator::new("tcp", "127.0.0.1:7447");
    m.add_listener_unicast(&loc).unwrap();
    m.del_listener_unicast(&loc).unwrap();
    assert_eq!(m.state.protocols.len(), 0);
    assert!(m.get_listeners_unicast().is_empty());
    match m.del_listener_unicast(&loc) {
        Err(ZError::NotFound { .. }) => {}
        _ => panic!("expected a second deletion to find nothing"),
    }
}

#[test]
fn factory_survives_while_it_has_listeners() {
    let mut m = fresh();
    let a = Locator::new("tcp", "127.0.0.1:7447");
    let b = Locator::new("tcp", "127.0.0.1:7448");
    m.add_listener_unicast(&a).unwrap();
    m.add_listener_unicast(&b).unwrap();
    assert_eq!(m.state.protocols.len(), 1);
    m.del_listener_unicast(&a).unwrap();
    assert_eq!(m.state.protocols.len(), 1);
    assert_eq!(m.get_listeners_unicast().len(), 1);
    m.del_listener_unicast(&b).unwrap();
    assert_eq!(m.state.protocols.len(), 0);
}

#[test]
fn new_link_manager_refuses_duplicates() {
    let mut m = fresh();
    let proto = "tcp".to_string();
    m.new_link_manager_unicast(&proto).unwrap();
    match m.new_link_manager_unicast(&proto) {
        Err(ZError::AlreadyExists { .. }) => {}
        _ => panic!("expected the registry to refuse a second factory"),
    }
    assert_eq!(m.state.protocols.len(), 1);
}

#[test]
fn get_link_manager_reports_absence() {
    let m = fresh();
    match m.get_link_manager_unicast(&"udp".to_string()) {
        Err(ZError::NotFound { .. }) => {}
        _ => panic!("expected no factory for an unused protocol"),
    }
}

#[test]
fn del_link_manager_returns_listeners_to_tear_down() {
    let mut m = fresh();
    let a = Locator::new("tcp", "127.0.0.1:7447");
    let b = Locator::new("tcp", "127.0.0.1:7448");
    m.add_listener_unicast(&a).unwrap();
    m.add_listener_unicast(&b).unwrap();
    let left = m.del_link_manager_unicast(&"tcp".to_string()).unwrap();
    assert_eq!(left.len(), 2);
    assert_eq!(m.state.protocols.len(), 0);
    match m.del_link_manager_unicast(&"tcp".to_string()) {
        Err(ZError::NotFound { .. }) => {}
        _ => panic!("expected the registry to be empty"),
    }
}

#[test]
fn get_or_new_link_manager_is_idempotent() {
    let mut m = fresh();
    let proto = "quic".to_string();
    let f1 = m.get_or_new_link_manager_unicast(&proto);
    assert_eq!(f1.protocol, "quic");
    let f2 = m.get_or_new_link_manager_unicast(&proto);
    assert_eq!(f2.protocol, "quic");
    assert_eq!(m.state.protocols.len(), 1);
}

#[test]
fn listeners_and_locators_enumerate_across_factories() {
    let mut m = fresh();
    m.add_listener_unicast(&Locator::new("tcp", "127.0.0.1:7447"))
        .unwrap();
    m.add_listener_unicast(&Locator::new("udp", "127.0.0.1:7447"))
        .unwrap();
    assert_eq!(m.get_listeners_unicast().len(), 2);
    assert_eq!(m.get_locators_unicast().len(), 2);
}

#[test]
fn open_transport_prepares_factory_and_dial() {
    let mut m = fresh();
    let loc = Locator::new("tcp", "192.168.0.10:7447");
    let action = m.open_transport_unicast(&loc);
    assert!(action.remote.same(&loc));
    assert_eq!(m.state.protocols.len(), 1);
    assert!(m.get_listeners_unicast().is_empty());
}
