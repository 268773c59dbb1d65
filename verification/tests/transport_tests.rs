use zenoh_unicast::config::TransportManagerConfigUnicast;
use zenoh_unicast::manager::TransportManager;
use zenoh_unicast::transport::TransportConfigUnicast;
use zenoh_unicast::types::{PeerId, WhatAmI, ZError};

fn pid(bytes: &[u8]) -> PeerId {
    PeerId::new(bytes.to_vec()).unwrap()
}

fn cfg(peer: &[u8], whatami: WhatAmI, sn: u64, shm: bool) -> TransportConfigUnicast {
    TransportConfigUnicast {
        peer: pid(peer),
        whatami,
        sn_resolution: sn,
        initial_sn_tx: 3,
        initial_sn_rx: 4,
        is_shm: shm,
        is_qos: false,
    }
}

fn fresh() -> TransportManager {
    TransportManager::new(TransportManagerConfigUnicast::builder().build())
}

#[test]
fn peer_id_rejects_oversized_byte_strings() {
    assert!(PeerId::new(vec![0; 16]).is_ok());
    match PeerId::new(vec![0; 17]) {
        Err(ZError::Other { descr }) => assert!(descr.contains("peer id")),
        _ => panic!("expected the oversized identity to be refused"),
    }
}

#[test]
fn init_transport_inserts_and_returns_handle() {
    let mut m = fresh();
    let h = m
        .init_transport_unicast(cfg(&[1, 2], WhatAmI::Router, 1 << 28, false))
        .unwrap();
    assert_eq!(h.peer.id, vec![1, 2]);
    assert_eq!(h.whatami, WhatAmI::Router);
    assert_eq!(h.sn_resolution, 1 << 28);
    assert_eq!(m.state.transports.len(), 1);
}

#[test]
fn init_transport_reuses_compatible_entry() {
    let mut m = fresh();
    m.init_transport_unicast(cfg(&[1], WhatAmI::Peer, 100, true))
        .unwrap();
    let again = m
        .init_transport_unicast(cfg(&[1], WhatAmI::Peer, 100, true))
        .unwrap();
    assert_eq!(again.whatami, WhatAmI::Peer);
    assert_eq!(m.state.transports.len(), 1);
}

#[test]
fn whatami_mismatch_fails_naming_the_field() {
    let mut m = fresh();
    m.init_transport_unicast(cfg(&[9], WhatAmI::Router, 1 << 28, false))
        .unwrap();
    match m.init_transport_unicast(cfg(&[9], WhatAmI::Peer, 1 << 28, false)) {
        Err(ZError::AlreadyExists { descr }) => {
            assert!(descr.contains("whatami"));
            assert!(descr.contains("peer"));
            assert!(descr.contains("router"));
        }
        _ => panic!("expected the re-initialisation to be refused"),
    }
    let kept = m.get_transport_unicast(&pid(&[9])).unwrap();
    assert_eq!(kept.whatami, WhatAmI::Router);
    assert_eq!(m.state.transports.len(), 1);
}

#[test]
fn sn_resolution_mismatch_fails_naming_both_values() {
    let mut m = fresh();
    m.init_transport_unicast(cfg(&[9], WhatAmI::Router, 100, false))
        .unwrap();
    match m.init_transport_unicast(cfg(&[9], WhatAmI::Router, 200, false)) {
        Err(ZError::AlreadyExists { descr }) => {
            assert!(descr.contains("sn resolution"));
            assert!(descr.contains("200"));
            assert!(descr.contains("100"));
        }
        _ => panic!("expected the re-initialisation to be refused"),
    }
}

#[test]
fn shm_mismatch_fails_naming_the_flag() {
    let mut m = fresh();
    m.init_transport_unicast(cfg(&[9], WhatAmI::Router, 100, false))
        .unwrap();
    match m.init_transport_unicast(cfg(&[9], WhatAmI::Router, 100, true)) {
        Err(ZError::AlreadyExists { descr }) => {
            assert!(descr.contains("shm"));
            assert!(descr.contains("true"));
            assert!(descr.contains("false"));
        }
        _ => panic!("expected the re-initialisation to be refused"),
    }
}

#[test]
fn transport_limit_denies_new_peer() {
    let mut m = TransportManager::new(
        TransportManagerConfigUnicast::builder().max_transports(1).build(),
    );
    m.init_transport_unicast(cfg(&[1], WhatAmI::Router, 100, false))
        .unwrap();
    match m.init_transport_unicast(cfg(&[2], WhatAmI::Router, 100, false)) {
        Err(ZError::LimitExceeded { descr }) => {
            assert!(descr.contains("max transports reached (1)"));
            assert!(descr.contains("02"));
        }
        _ => panic!("expected the bound to deny the new peer"),
    }
    assert_eq!(m.state.transports.len(), 1);
    let same_peer = m.init_transport_unicast(cfg(&[1], WhatAmI::Router, 100, false));
    assert!(same_peer.is_ok());
}

#[test]
fn get_transport_and_snapshots() {
    let mut m = fresh();
    m.init_transport_unicast(cfg(&[1], WhatAmI::Router, 100, false))
        .unwrap();
    m.init_transport_unicast(cfg(&[2], WhatAmI::Client, 100, false))
        .unwrap();
    assert!(m.get_transport_unicast(&pid(&[1])).is_some());
    assert!(m.get_transport_unicast(&pid(&[3])).is_none());
    let all = m.get_transports_unicast();
    assert_eq!(all.len(), 2);
    assert_eq!(all[0].peer.id, vec![1]);
    assert_eq!(all[1].peer.id, vec![2]);
}

#[test]
fn del_transport_owes_one_close_per_peer_authenticator() {
    let mut m = fresh();
    m.init_transport_unicast(cfg(&[7], WhatAmI::Router, 100, false))
        .unwrap();
    let actions = m.del_transport_unicast(&pid(&[7])).unwrap();
    assert_eq!(actions.len(), 1);
    assert_eq!(actions[0].authenticator.id, 0);
    assert_eq!(actions[0].peer.id, vec![7]);
    assert!(m.get_transport_unicast(&pid(&[7])).is_none());
    match m.del_transport_unicast(&pid(&[7])) {
        Err(ZError::NotFound { .. }) => {}
        _ => panic!("expected nothing left to delete"),
    }
}
