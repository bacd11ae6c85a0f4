use guardian_db::p2p::network::backend::ticket_exchange::{
    authorized_mode, read_response, AccessRoles, GrantedMode, SearchStep, TicketProtocolHandler,
    TicketProvider, TicketSearch, MAX_RETRIES, RESP_DENIED, RESP_GRANTED, RETRY_DELAY,
};
use guardian_db::p2p::node::NodeId;

fn random_public_key() -> NodeId {
    NodeId {
        bytes: *iroh::SecretKey::generate().public().as_bytes(),
    }
}

fn acl_with(role: &str, keys: Vec<&str>) -> AccessRoles {
    let mut roles = AccessRoles::new();
    roles.set_role(role, keys.into_iter().map(String::from).collect());
    roles
}

fn provider(read: &str, write: &str, access_controller: AccessRoles) -> TicketProvider {
    TicketProvider {
        read_ticket: read.to_string(),
        write_ticket: write.to_string(),
        access_controller,
    }
}

#[test]
fn wildcard_write_grants_write_to_any_peer() {
    let acl = acl_with("write", vec!["*"]);
    assert_eq!(
        authorized_mode(&acl, &random_public_key()),
        Some(GrantedMode::Write)
    );
}

#[test]
fn wildcard_read_grants_read_to_any_peer() {
    let acl = acl_with("read", vec!["*"]);
    assert_eq!(
        authorized_mode(&acl, &random_public_key()),
        Some(GrantedMode::Read)
    );
}

#[test]
fn read_only_peer_never_gets_write() {
    let peer = random_public_key();
    let peer_hex = hex::encode(peer.as_bytes());
    let mut acl = AccessRoles::new();
    acl.set_role("write", vec![hex::encode(random_public_key().as_bytes())]);
    acl.set_role("read", vec![peer_hex]);
    assert_eq!(authorized_mode(&acl, &peer), Some(GrantedMode::Read));
}

#[test]
fn write_precedence_over_read() {
    let peer = random_public_key();
    let peer_hex = hex::encode(peer.as_bytes());
    let mut acl = AccessRoles::new();
    acl.set_role("write", vec![peer_hex.clone()]);
    acl.set_role("read", vec![peer_hex]);
    assert_eq!(authorized_mode(&acl, &peer), Some(GrantedMode::Write));
}

#[test]
fn specific_authorized_key_gets_write() {
    let peer = random_public_key();
    let peer_hex = hex::encode(peer.as_bytes());
    let acl = acl_with("write", vec![peer_hex.as_str()]);
    assert_eq!(authorized_mode(&acl, &peer), Some(GrantedMode::Write));
}

#[test]
fn unknown_key_is_denied_when_no_wildcard() {
    let other_hex = hex::encode(random_public_key().as_bytes());
    let acl = acl_with("write", vec![other_hex.as_str()]);
    assert_eq!(authorized_mode(&acl, &random_public_key()), None);
}

#[test]
fn empty_acl_denies() {
    let acl = acl_with("write", vec![]);
    assert_eq!(authorized_mode(&acl, &random_public_key()), None);
}

#[test]
fn resolve_unknown_store_is_denied() {
    let handler = TicketProtocolHandler::new();
    let resp = handler.resolve("does-not-exist", &random_public_key());
    assert_eq!(resp, vec![RESP_DENIED]);
}

#[test]
fn resolve_grants_write_ticket_to_write_peer() {
    let mut handler = TicketProtocolHandler::new();
    handler.register(
        "shared-kv",
        provider("read-ticket-xyz", "write-ticket-xyz", acl_with("write", vec!["*"])),
    );

    let resp = handler.resolve("shared-kv", &random_public_key());
    assert_eq!(resp.first(), Some(&RESP_GRANTED));
    assert_eq!(&resp[1..], b"write-ticket-xyz");
}

#[test]
fn resolve_grants_read_ticket_to_read_only_peer() {
    let peer = random_public_key();
    let peer_hex = hex::encode(peer.as_bytes());
    let mut handler = TicketProtocolHandler::new();
    handler.register(
        "shared-kv",
        provider(
            "read-ticket-xyz",
            "write-ticket-xyz",
            acl_with("read", vec![peer_hex.as_str()]),
        ),
    );

    let resp = handler.resolve("shared-kv", &peer);
    assert_eq!(resp.first(), Some(&RESP_GRANTED));
    assert_eq!(&resp[1..], b"read-ticket-xyz");
}

#[test]
fn resolve_denies_unauthorized_peer() {
    let other_hex = hex::encode(random_public_key().as_bytes());
    let mut handler = TicketProtocolHandler::new();
    handler.register(
        "private-kv",
        provider(
            "secret-read-ticket",
            "secret-write-ticket",
            acl_with("write", vec![other_hex.as_str()]),
        ),
    );

    let resp = handler.resolve("private-kv", &random_public_key());
    assert_eq!(resp, vec![RESP_DENIED]);
}

#[test]
fn a_request_is_answered_and_the_answer_is_read() {
    let mut handler = TicketProtocolHandler::new();
    handler.register("kv", provider("r", "w", acl_with("read", vec!["*"])));
    let answer = handler.accept(b"kv", &random_public_key());
    assert_eq!(read_response(&answer), Some("r".to_string()));
    assert_eq!(handler.accept(&[0xff], &random_public_key()), vec![RESP_DENIED]);
    assert_eq!(read_response(&[RESP_DENIED]), None);
    assert_eq!(read_response(&[]), None);
    handler.unregister("kv");
    assert_eq!(handler.accept(b"kv", &random_public_key()), vec![RESP_DENIED]);
}

fn asks(step: &SearchStep, byte: u8) -> bool {
    match step {
        SearchStep::Ask(peer) => peer.bytes == [byte; 32],
        _ => false,
    }
}

#[test]
fn the_lowest_node_creates_at_once() {
    let own = NodeId { bytes: [1; 32] };
    let peers = vec![NodeId { bytes: [2; 32] }, NodeId { bytes: [3; 32] }];
    let (mut search, step) = TicketSearch::start(own, peers);
    assert!(asks(&step, 2));
    let step = search.answered(None);
    assert!(asks(&step, 3));
    assert!(matches!(search.answered(None), SearchStep::GiveUp));
    let (_, step) = TicketSearch::start(own, vec![]);
    assert!(matches!(step, SearchStep::GiveUp));
}

#[test]
fn a_node_with_a_lower_peer_tries_again_and_then_gives_up() {
    let own = NodeId { bytes: [5; 32] };
    let lower = NodeId { bytes: [2; 32] };
    let (mut search, step) = TicketSearch::start(own, vec![lower]);
    assert!(asks(&step, 2));
    let mut step = search.answered(None);
    let mut sleeps = 0;
    while let SearchStep::Sleep(pause) = step {
        assert_eq!(pause, RETRY_DELAY);
        sleeps += 1;
        step = search.woke(vec![lower]);
        assert!(asks(&step, 2));
        step = search.answered(None);
    }
    assert_eq!(sleeps, MAX_RETRIES);
    assert!(matches!(step, SearchStep::GiveUp));
}

#[test]
fn a_ticket_that_is_granted_ends_the_search() {
    let own = NodeId { bytes: [5; 32] };
    let (mut search, _) = TicketSearch::start(own, vec![NodeId { bytes: [2; 32] }]);
    match search.answered(Some("ticket".to_string())) {
        SearchStep::Found(ticket) => assert_eq!(ticket, "ticket"),
        step => panic!("not found: {:?}", step),
    }
}
