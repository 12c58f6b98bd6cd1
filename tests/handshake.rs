use meshpit::{
    claim_connection, parse_client_id, validate_handshake, ConnectError, HandshakeRejected,
    IdentityRegistry,
};

#[test]
fn parse_plain_ids() {
    assert_eq!(parse_client_id(b"0"), Some(0));
    assert_eq!(parse_client_id(b"42"), Some(42));
    assert_eq!(parse_client_id(b"65535"), Some(65535));
    assert_eq!(parse_client_id(b"007"), Some(7));
    assert_eq!(parse_client_id(b"+12"), Some(12));
}

#[test]
fn parse_rejects_malformed_ids() {
    assert_eq!(parse_client_id(b""), None);
    assert_eq!(parse_client_id(b"+"), None);
    assert_eq!(parse_client_id(b"-1"), None);
    assert_eq!(parse_client_id(b"65536"), None);
    assert_eq!(parse_client_id(b"99999999999"), None);
    assert_eq!(parse_client_id(b"12a"), None);
    assert_eq!(parse_client_id(b" 12"), None);
    assert_eq!(parse_client_id(b"1 2"), None);
}

#[test]
fn validate_checks_route_first() {
    assert_eq!(validate_handshake("/other", Some(b"1")), Err(HandshakeRejected::NotFound));
    assert_eq!(validate_handshake("/other", None), Err(HandshakeRejected::NotFound));
    assert_eq!(validate_handshake("/meshpit/", Some(b"1")), Err(HandshakeRejected::NotFound));
}

#[test]
fn validate_needs_identity_header() {
    assert_eq!(validate_handshake("/meshpit", None), Err(HandshakeRejected::BadRequest));
    assert_eq!(validate_handshake("/meshpit", Some(b"abc")), Err(HandshakeRejected::BadRequest));
    assert_eq!(validate_handshake("/meshpit", Some(b"17")), Ok(17));
}

#[test]
fn unclaimed_id_is_refused_and_next_connection_served() {
    let mut reg: IdentityRegistry<&str> = IdentityRegistry::new();
    let r = claim_connection(&mut reg, "/meshpit", Some(b"42"));
    assert_eq!(r, Err(ConnectError::UnclaimedConnection(42)));
    assert_eq!(r.unwrap_err().status(), 403);
    reg.register(5, "five").unwrap();
    assert_eq!(claim_connection(&mut reg, "/meshpit", Some(b"5")), Ok((5, "five")));
    assert!(!reg.contains(5));
}

#[test]
fn rejected_handshake_leaves_registration() {
    let mut reg: IdentityRegistry<&str> = IdentityRegistry::new();
    reg.register(8, "eight").unwrap();
    let r = claim_connection(&mut reg, "/wrong", Some(b"8"));
    assert_eq!(r, Err(ConnectError::Rejected(HandshakeRejected::NotFound)));
    assert_eq!(r.unwrap_err().status(), 404);
    let r = claim_connection(&mut reg, "/meshpit", None);
    assert_eq!(r, Err(ConnectError::Rejected(HandshakeRejected::BadRequest)));
    assert_eq!(r.unwrap_err().status(), 400);
    assert!(reg.contains(8));
}

#[test]
fn second_claim_of_same_id_is_refused() {
    let mut reg: IdentityRegistry<&str> = IdentityRegistry::new();
    reg.register(7, "seven").unwrap();
    assert_eq!(claim_connection(&mut reg, "/meshpit", Some(b"7")), Ok((7, "seven")));
    assert_eq!(
        claim_connection(&mut reg, "/meshpit", Some(b"7")),
        Err(ConnectError::UnclaimedConnection(7))
    );
}

#[test]
fn concurrent_ids_get_their_own_mailboxes() {
    let mut reg: IdentityRegistry<std::sync::mpsc::Sender<String>> = IdentityRegistry::new();
    let (tx1, rx1) = std::sync::mpsc::channel::<String>();
    let (tx2, rx2) = std::sync::mpsc::channel::<String>();
    reg.register(1, tx1).unwrap();
    reg.register(2, tx2).unwrap();
    let (id2, m2) = claim_connection(&mut reg, "/meshpit", Some(b"2")).unwrap();
    let (id1, m1) = claim_connection(&mut reg, "/meshpit", Some(b"1")).unwrap();
    assert_eq!((id1, id2), (1, 2));
    m1.send("for one".to_string()).unwrap();
    m2.send("for two".to_string()).unwrap();
    assert_eq!(rx1.try_recv().unwrap(), "for one");
    assert_eq!(rx2.try_recv().unwrap(), "for two");
    assert!(rx1.try_recv().is_err());
    assert!(rx2.try_recv().is_err());
}
