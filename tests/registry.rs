use meshpit::{IdentityCollision, IdentityRegistry};

#[test]
fn register_twice_collides_until_taken() {
    let mut reg: IdentityRegistry<&str> = IdentityRegistry::new();
    assert_eq!(reg.register(7, "first"), Ok(0));
    assert_eq!(reg.register(7, "second"), Err(IdentityCollision { id: 7 }));
    assert!(reg.contains(7));
    assert_eq!(reg.take(7), Some("first"));
    assert!(!reg.contains(7));
    assert_eq!(reg.register(7, "third"), Ok(1));
    assert_eq!(reg.take(7), Some("third"));
}

#[test]
fn take_is_exactly_once() {
    let mut reg: IdentityRegistry<u32> = IdentityRegistry::new();
    reg.register(3, 30).unwrap();
    assert_eq!(reg.take(3), Some(30));
    assert_eq!(reg.take(3), None);
}

#[test]
fn take_of_unknown_id_is_none() {
    let mut reg: IdentityRegistry<u32> = IdentityRegistry::new();
    assert_eq!(reg.take(42), None);
    assert!(!reg.contains(42));
}

#[test]
fn released_registration_is_registrable_again() {
    let mut reg: IdentityRegistry<&str> = IdentityRegistry::new();
    let ticket = reg.register(9, "handle").unwrap();
    reg.release(9, ticket);
    assert!(!reg.contains(9));
    assert!(reg.register(9, "again").is_ok());
}

#[test]
fn stale_release_keeps_newer_registration() {
    let mut reg: IdentityRegistry<&str> = IdentityRegistry::new();
    let old_ticket = reg.register(5, "old").unwrap();
    assert_eq!(reg.take(5), Some("old"));
    let new_ticket = reg.register(5, "new").unwrap();
    assert_ne!(old_ticket, new_ticket);
    reg.release(5, old_ticket);
    assert!(reg.contains(5));
    assert_eq!(reg.take(5), Some("new"));
}

#[test]
fn release_after_claim_is_noop() {
    let mut reg: IdentityRegistry<&str> = IdentityRegistry::new();
    let t = reg.register(4, "m").unwrap();
    assert_eq!(reg.take(4), Some("m"));
    reg.release(4, t);
    assert!(!reg.contains(4));
}

#[test]
fn ids_are_independent() {
    let mut reg: IdentityRegistry<&str> = IdentityRegistry::new();
    reg.register(1, "one").unwrap();
    let t2 = reg.register(2, "two").unwrap();
    assert_eq!(reg.take(1), Some("one"));
    assert!(reg.contains(2));
    reg.release(2, t2);
    assert!(!reg.contains(2));
    assert_eq!(reg.register(1, "one again"), Ok(2));
}

#[test]
fn largest_id_registers() {
    let mut reg: IdentityRegistry<u8> = IdentityRegistry::new();
    assert_eq!(reg.register(u16::MAX, 1), Ok(0));
    assert_eq!(reg.take(u16::MAX), Some(1));
}
