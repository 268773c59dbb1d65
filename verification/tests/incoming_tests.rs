use zenoh_unicast::config::TransportManagerConfigUnicast;
use zenoh_unicast::incoming::{
    AcceptOutcome, AuthDecision, HandleNewLinkOutcome, LinkAuthResult, fold_link_auth,
};
use zenoh_unicast::manager::TransportManager;
use zenoh_unicast::types::{Link, Locator, PeerId, ZError};

fn link(n: u16) -> Link {
    Link {
        src: Locator::new("tcp", &format!("10.0.0.1:{}", n)),
        dst: Locator::new("tcp", "10.0.0.2:7447"),
    }
}

fn pid(bytes: &[u8]) -> PeerId {
    PeerId::new(bytes.to_vec()).unwrap()
}

fn manager(open_pending: usize) -> TransportManager {
    TransportManager::new(
        TransportManagerConfigUnicast::builder().open_pending(open_pending).build(),
    )
}

#[test]
fn full_pending_table_denies_silently() {
    let mut m = manager(1);
    let first = m.handle_new_link_unicast(&link(1), &vec![LinkAuthResult::Identified(None)]);
    assert!(matches!(first, HandleNewLinkOutcome::Accepted(_)));
    assert_eq!(m.state.incoming.len(), 1);
    let second = m.handle_new_link_unicast(&link(2), &vec![LinkAuthResult::Identified(None)]);
    assert!(matches!(second, HandleNewLinkOutcome::DenyCapacity));
    assert_eq!(m.state.incoming.len(), 1);
}

#[test]
fn rejection_releases_the_slot_without_closing_here() {
    let mut m = manager(8);
    let r = m.handle_new_link_unicast(
        &link(1),
        &vec![LinkAuthResult::Rejected(ZError::Auth { descr: "bad cert".to_string() })],
    );
    assert!(matches!(r, HandleNewLinkOutcome::AuthRejected));
    assert_eq!(m.state.incoming.len(), 0);
    assert!(m.admit_incoming_link(&link(1)));
}

#[test]
fn ambiguous_identification_releases_the_slot() {
    let mut m = manager(8);
    let r = m.handle_new_link_unicast(
        &link(1),
        &vec![
            LinkAuthResult::Identified(Some(pid(&[1]))),
            LinkAuthResult::Identified(Some(pid(&[2]))),
        ],
    );
    assert!(matches!(r, HandleNewLinkOutcome::AuthAmbiguous));
    assert_eq!(m.state.incoming.len(), 0);
}

#[test]
fn agreement_yields_the_authenticated_link() {
    let mut m = manager(8);
    let l = link(1);
    let r = m.handle_new_link_unicast(
        &l,
        &vec![
            LinkAuthResult::Identified(None),
            LinkAuthResult::Identified(Some(pid(&[5, 6]))),
            LinkAuthResult::Identified(Some(pid(&[5, 6]))),
        ],
    );
    match r {
        HandleNewLinkOutcome::Accepted(auth) => {
            assert!(auth.src.same(&l.src));
            assert!(auth.dst.same(&l.dst));
            assert_eq!(auth.peer_id.unwrap().id, vec![5, 6]);
        }
        _ => panic!("expected the chain to agree"),
    }
    assert_eq!(m.state.incoming.len(), 1);
}

#[test]
fn fold_stops_at_first_rejection() {
    let results = vec![
        LinkAuthResult::Identified(Some(pid(&[1]))),
        LinkAuthResult::Rejected(ZError::Auth { descr: "no".to_string() }),
        LinkAuthResult::Identified(Some(pid(&[2]))),
    ];
    let (d, _) = fold_link_auth(&results);
    assert_eq!(d, AuthDecision::Rejected);
}

#[test]
fn accept_timeout_closes_and_releases() {
    let mut m = manager(8);
    let l = link(1);
    let r = m.handle_new_link_unicast(&l, &vec![LinkAuthResult::Identified(None)]);
    assert!(matches!(r, HandleNewLinkOutcome::Accepted(_)));
    let close = m.finish_accept(&l, AcceptOutcome::TimedOut);
    assert!(close);
    assert_eq!(m.state.incoming.len(), 0);
}

#[test]
fn accept_success_and_inner_error_release_without_closing_here() {
    let mut m = manager(8);
    let l1 = link(1);
    let l2 = link(2);
    m.handle_new_link_unicast(&l1, &vec![LinkAuthResult::Identified(None)]);
    m.handle_new_link_unicast(&l2, &vec![LinkAuthResult::Identified(None)]);
    assert_eq!(m.state.incoming.len(), 2);
    assert!(!m.finish_accept(&l1, AcceptOutcome::Established));
    assert!(!m.finish_accept(&l2, AcceptOutcome::InnerError));
    assert_eq!(m.state.incoming.len(), 0);
}

#[test]
fn admission_reserves_at_most_the_bound() {
    let mut m = manager(2);
    assert!(m.admit_incoming_link(&link(1)));
    assert!(m.admit_incoming_link(&link(2)));
    assert!(!m.admit_incoming_link(&link(3)));
    assert_eq!(m.state.incoming.len(), 2);
    m.remove_pending_link(&link(1));
    assert_eq!(m.state.incoming.len(), 1);
    assert!(m.admit_incoming_link(&link(3)));
}
