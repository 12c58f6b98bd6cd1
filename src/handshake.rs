//! Handshake validation: the route, the numeric identity header, and claiming the pending
//! registration of the announced id. Runs before a connection is promoted to a pump.
use crate::registry::{taken, ClientId, IdentityRegistry};
use vstd::prelude::*;
use vstd::string::StringExecFns;

verus! {

broadcast use vstd::string::group_string_axioms;

/// Why a handshake request was refused before its id was looked up.
#[derive(Clone, Copy, PartialEq, Eq, Structural, Debug)]
pub enum HandshakeRejected {
    /// The request was not made on the control route.
    NotFound,
    /// The identity header is missing or is not a decimal id.
    BadRequest,
}

/// Why a connection attempt was refused.
#[derive(Clone, Copy, PartialEq, Eq, Structural, Debug)]
pub enum ConnectError {
    Rejected(HandshakeRejected),
    /// The id is well formed but nobody has a pending registration for it.
    UnclaimedConnection(ClientId),
}

/// The one route on which remote runtimes connect.
pub open spec fn control_route() -> Seq<char> {
    "/meshpit"@
}

pub open spec fn is_digit(b: u8) -> bool {
    48 <= b <= 57
}

/// The number that a string of decimal digits stands for.
pub open spec fn digits_value(s: Seq<u8>) -> nat
    decreases s.len(),
{
    if s.len() == 0 {
        0
    } else {
        digits_value(s.drop_last()) * 10 + (s.last() - 48) as nat
    }
}

/// The header without its optional leading `+`.
pub open spec fn unsigned_part(s: Seq<u8>) -> Seq<u8> {
    if s.len() > 0 && s[0] == 43 {
        s.subrange(1, s.len() as int)
    } else {
        s
    }
}

/// The id that an identity header gives: an optional `+` and then one or more decimal
/// digits whose value fits in a `u16`.
pub open spec fn parse_id(s: Seq<u8>) -> Option<ClientId> {
    let d = unsigned_part(s);
    if d.len() > 0 && (forall|i: int| 0 <= i < d.len() ==> is_digit(#[trigger] d[i]))
        && digits_value(d) <= u16::MAX {
        Some(digits_value(d) as u16)
    } else {
        None
    }
}

/// What a handshake request comes to before the registry is consulted.
pub open spec fn handshake_outcome(path: Seq<char>, identity: Option<Seq<u8>>) -> Result<
    ClientId,
    HandshakeRejected,
> {
    if path != control_route() {
        Err(HandshakeRejected::NotFound)
    } else {
        match identity {
            None => Err(HandshakeRejected::BadRequest),
            Some(h) => match parse_id(h) {
                Some(id) => Ok(id),
                None => Err(HandshakeRejected::BadRequest),
            },
        }
    }
}

proof fn lemma_digits_value_prefix(d: Seq<u8>, k: int)
    requires
        0 <= k <= d.len(),
        forall|i: int| 0 <= i < d.len() ==> is_digit(#[trigger] d[i]),
    ensures
        digits_value(d) >= digits_value(d.subrange(0, k)),
    decreases d.len(),
{
    if k == d.len() {
        assert(d.subrange(0, k) =~= d);
    } else {
        let front = d.drop_last();
        assert forall|i: int| 0 <= i < front.len() implies is_digit(#[trigger] front[i]) by {
            assert(front[i] == d[i]);
        }
        lemma_digits_value_prefix(front, k);
        assert(front.subrange(0, k) =~= d.subrange(0, k));
    }
}

/// Reads the id from an identity header's bytes.
pub fn parse_client_id(s: &[u8]) -> (r: Option<ClientId>)
    ensures
        r == parse_id(s@),
{
    let mut start: usize = 0;
    if s.len() > 0 && s[0] == 43 {
        start = 1;
    }
    let ghost d = unsigned_part(s@);
    proof {
        assert(d =~= s@.subrange(start as int, s@.len() as int));
    }
    if start >= s.len() {
        return None;
    }
    let mut acc: u32 = 0;
    let mut i: usize = start;
    while i < s.len()
        invariant
            start <= i <= s.len(),
            start < s.len(),
            d == s@.subrange(start as int, s@.len() as int),
            d == unsigned_part(s@),
            acc == digits_value(s@.subrange(start as int, i as int)),
            acc <= 65535,
            forall|k: int| start <= k < i ==> is_digit(#[trigger] s@[k]),
        decreases s.len() - i,
    {
        let b = s[i];
        if b < 48 || b > 57 {
            proof {
                assert(d[i - start] == s@[i as int]);
                assert(!is_digit(d[i - start]));
                assert(!(forall|k: int| 0 <= k < d.len() ==> is_digit(#[trigger] d[k])));
            }
            return None;
        }
        let ghost prefix = s@.subrange(start as int, i + 1);
        proof {
            assert(prefix.drop_last() =~= s@.subrange(start as int, i as int));
        }
        let next: u32 = acc * 10 + (b - 48) as u32;
        proof {
            assert(prefix.last() == b);
            assert(digits_value(prefix) == next);
        }
        if next > 65535 {
            proof {
                if forall|k: int| 0 <= k < d.len() ==> is_digit(#[trigger] d[k]) {
                    lemma_digits_value_prefix(d, i + 1 - start);
                    assert(d.subrange(0, i + 1 - start) =~= prefix);
                }
            }
            return None;
        }
        acc = next;
        i += 1;
    }
    proof {
        assert(s@.subrange(start as int, i as int) =~= d);
        assert forall|k: int| 0 <= k < d.len() implies is_digit(#[trigger] d[k]) by {
            assert(d[k] == s@[k + start]);
        }
    }
    Some(acc as u16)
}

/// Checks the route and the identity header of a handshake request, in that order.
pub fn validate_handshake(path: &str, identity: Option<&[u8]>) -> (r: Result<
    ClientId,
    HandshakeRejected,
>)
    ensures
        r == handshake_outcome(
            path@,
            match identity {
                Some(h) => Some(h@),
                None => None,
            },
        ),
{
    proof {
        reveal_strlit("/meshpit");
    }
    let requested = String::from_str(path);
    let route = String::from_str("/meshpit");
    if requested != route {
        return Err(HandshakeRejected::NotFound);
    }
    match identity {
        None => Err(HandshakeRejected::BadRequest),
        Some(h) => match parse_client_id(h) {
            Some(id) => Ok(id),
            None => Err(HandshakeRejected::BadRequest),
        },
    }
}

/// Validates a handshake request and claims the pending registration of its id. A
/// rejected request leaves the registry as it was; a valid one takes the id's entry, and
/// is refused as unclaimed when there was none.
pub fn claim_connection<M>(
    registry: &mut IdentityRegistry<M>,
    path: &str,
    identity: Option<&[u8]>,
) -> (r: Result<(ClientId, M), ConnectError>)
    requires
        old(registry).wf(),
    ensures
        final(registry).wf(),
        final(registry).issued() == old(registry).issued(),
        match handshake_outcome(
            path@,
            match identity {
                Some(h) => Some(h@),
                None => None,
            },
        ) {
            Err(reason) => r == Err::<(ClientId, M), ConnectError>(ConnectError::Rejected(reason))
                && final(registry)@ == old(registry)@,
            Ok(id) => {
                &&& final(registry)@ == taken(old(registry)@, id)
                &&& match r {
                    Ok((got, m)) => got == id && old(registry)@.contains_key(id) && m == old(
                        registry,
                    )@[id].mailbox,
                    Err(e) => e == ConnectError::UnclaimedConnection(id) && !old(
                        registry,
                    )@.contains_key(id),
                }
            },
        },
{
    match validate_handshake(path, identity) {
        Err(reason) => Err(ConnectError::Rejected(reason)),
        Ok(id) => match registry.take(id) {
            Some(m) => Ok((id, m)),
            None => Err(ConnectError::UnclaimedConnection(id)),
        },
    }
}

/// A connection announcing an id that nobody registered is refused and leaves every
/// registration as it was, so the acceptor serves the next connection unchanged.
pub proof fn lemma_unclaimed_changes_nothing<M>(
    m: Map<ClientId, crate::registry::Pending<M>>,
    id: ClientId,
)
    requires
        !m.contains_key(id),
    ensures
        taken(m, id) == m,
{
    assert(taken(m, id) =~= m);
}

impl ConnectError {
    /// The HTTP status with which the handshake is refused: 404 off the control route,
    /// 400 for a missing or malformed identity header, 403 for an unclaimed id.
    pub fn status(&self) -> (r: u16)
        ensures
            r == match *self {
                ConnectError::Rejected(HandshakeRejected::NotFound) => 404u16,
                ConnectError::Rejected(HandshakeRejected::BadRequest) => 400u16,
                ConnectError::UnclaimedConnection(_) => 403u16,
            },
    {
        match self {
            ConnectError::Rejected(HandshakeRejected::NotFound) => 404,
            ConnectError::Rejected(HandshakeRejected::BadRequest) => 400,
            ConnectError::UnclaimedConnection(_) => 403,
        }
    }
}

} // verus!
