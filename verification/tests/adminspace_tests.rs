use zenoh_unicast::adminspace::{
    AdminSpace, Encoding, HandlerKind, PluginInfo, ResKey, SessionInfo,
};
use zenoh_unicast::rname::intersect;
use zenoh_unicast::types::{Locator, PeerId};

fn bytes(s: &str) -> Vec<u8> {
    s.as_bytes().to_vec()
}

fn pid(raw: &[u8]) -> PeerId {
    PeerId::new(raw.to_vec()).unwrap()
}

#[test]
fn start_registers_three_handlers_under_the_root() {
    let (admin, queryable) = AdminSpace::start(&pid(&[0xa1, 0x2b]));
    assert_eq!(admin.pid_str, bytes("a12b"));
    assert_eq!(admin.handlers.len(), 3);
    assert_eq!(admin.handlers[0].path, bytes("/@/router/a12b"));
    assert_eq!(admin.handlers[0].kind, HandlerKind::RouterData);
    assert_eq!(admin.handlers[1].path, bytes("/@/router/a12b/linkstate/routers"));
    assert_eq!(admin.handlers[1].kind, HandlerKind::LinkstateRouters);
    assert_eq!(admin.handlers[2].path, bytes("/@/router/a12b/linkstate/peers"));
    assert_eq!(admin.handlers[2].kind, HandlerKind::LinkstatePeers);
    assert_eq!(queryable, bytes("/@/router/a12b/**"));
}

#[test]
fn query_on_the_root_wildcard_plans_all_three_replies_then_final() {
    let (admin, queryable) = AdminSpace::start(&pid(&[0xa1, 0x2b]));
    let plan = admin.query(&ResKey::RName(queryable), 9).unwrap();
    assert_eq!(plan.qid, 9);
    assert_eq!(plan.replies.len(), 3);
    assert_eq!(plan.replies[0].path, bytes("/@/router/a12b"));
    assert_eq!(plan.replies[0].kind, HandlerKind::RouterData);
    assert_eq!(plan.replies[1].kind, HandlerKind::LinkstateRouters);
    assert_eq!(plan.replies[2].kind, HandlerKind::LinkstatePeers);
}

#[test]
fn query_with_no_intersection_plans_no_data_replies() {
    let (admin, _) = AdminSpace::start(&pid(&[0xa1]));
    let plan = admin.query(&ResKey::RName(bytes("/elsewhere/**")), 1).unwrap();
    assert_eq!(plan.replies.len(), 0);
}

#[test]
fn unresolvable_key_draws_no_reply() {
    let (admin, _) = AdminSpace::start(&pid(&[0xa1]));
    assert!(admin.query(&ResKey::RId(42), 1).is_none());
}

#[test]
fn resource_mapping_resolves_numeric_keys() {
    let (mut admin, _) = AdminSpace::start(&pid(&[0xa1]));
    admin.resource(42, &ResKey::RName(bytes("/@/router/a1")));
    assert_eq!(
        admin.reskey_to_string(&ResKey::RId(42)),
        Some(bytes("/@/router/a1"))
    );
    assert_eq!(
        admin.reskey_to_string(&ResKey::RIdWithSuffix(42, bytes("/linkstate/peers"))),
        Some(bytes("/@/router/a1/linkstate/peers"))
    );
    assert_eq!(admin.reskey_to_string(&ResKey::RId(7)), None);

    let direct = admin.query(&ResKey::RId(42), 5).unwrap();
    assert_eq!(direct.replies.len(), 1);
    assert_eq!(direct.replies[0].kind, HandlerKind::RouterData);

    let wide = admin.query(&ResKey::RIdWithSuffix(42, bytes("/**")), 6).unwrap();
    assert_eq!(wide.replies.len(), 3);
}

#[test]
fn resource_redeclaration_replaces_the_name() {
    let (mut admin, _) = AdminSpace::start(&pid(&[0xa1]));
    admin.resource(42, &ResKey::RName(bytes("/first")));
    admin.resource(42, &ResKey::RName(bytes("/second")));
    assert_eq!(admin.reskey_to_string(&ResKey::RId(42)), Some(bytes("/second")));
    admin.resource(7, &ResKey::RId(99));
    assert_eq!(admin.reskey_to_string(&ResKey::RId(7)), None);
}

#[test]
fn router_data_renders_the_documented_json() {
    let (admin, _) = AdminSpace::start(&pid(&[0xa1, 0x2b]));
    let locators = vec![Locator::new("tcp", "127.0.0.1:7447")];
    let sessions = vec![
        SessionInfo { peer: Some(pid(&[0x0c])), links: vec![Locator::new("tcp", "1.1.1.1:1")] },
        SessionInfo { peer: None, links: vec![] },
    ];
    let plugins = vec![PluginInfo { name: bytes("storages"), path: bytes("/p") }];
    let (payload, enc) = admin.router_data(&locators, &sessions, &plugins);
    assert_eq!(enc, Encoding::AppJson);
    let expected = "{\"pid\":\"a12b\",\"locators\":[\"tcp/127.0.0.1:7447\"],\"sessions\":[{\"peer\":\"0c\",\"links\":[\"tcp/1.1.1.1:1\"]},{\"peer\":\"unavailable\",\"links\":[]}],\"plugins\":[{\"name\":\"storages\",\"path\":\"/p\"}]}";
    assert_eq!(String::from_utf8(payload).unwrap(), expected);
}

#[test]
fn router_data_payload_is_valid_json_with_escaping() {
    let (admin, _) = AdminSpace::start(&pid(&[0xa1]));
    let plugins = vec![PluginInfo { name: bytes("quo\"te"), path: bytes("c:\\p") }];
    let (payload, _) = admin.router_data(&vec![], &vec![], &plugins);
    let text = String::from_utf8(payload).unwrap();
    let v: serde_json::Value = serde_json::from_str(&text).unwrap();
    assert_eq!(v["pid"], serde_json::Value::String("a1".to_string()));
    assert_eq!(
        v["plugins"][0]["name"],
        serde_json::Value::String("quo\"te".to_string())
    );
    assert_eq!(
        v["plugins"][0]["path"],
        serde_json::Value::String("c:\\p".to_string())
    );
}

#[test]
fn linkstate_documents_pass_through_as_plain_text() {
    let (admin, _) = AdminSpace::start(&pid(&[0xa1]));
    let dot = bytes("digraph {}");
    let (routers, enc1) = admin.linkstate_routers_data(&dot);
    assert_eq!(routers, dot);
    assert_eq!(enc1, Encoding::TextPlain);
    let (peers, enc2) = admin.linkstate_peers_data(&dot);
    assert!(peers.starts_with(b"digraph"));
    assert_eq!(enc2, Encoding::TextPlain);
}

#[test]
fn intersection_follows_the_wildcard_semantics() {
    let i = |a: &str, b: &str| intersect(&bytes(a), &bytes(b));
    assert!(i("/a/b", "/a/b"));
    assert!(i("/a/*", "/a/b"));
    assert!(i("/a/**", "/a/b/c"));
    assert!(i("/a/**", "/a"));
    assert!(i("/**", "/x/y/z"));
    assert!(i("/a/*/c", "/a/b/c"));
    assert!(!i("/a", "/a/b"));
    assert!(!i("/a/b", "/a/c"));
    assert!(!i("/a/*", "/a/b/c"));
    assert!(i("/a/**/d", "/a/b/c/d"));
    assert!(!i("/a/**/d", "/a/b/c"));
}
