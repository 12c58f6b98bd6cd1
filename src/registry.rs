//! The identity registry: which client ids have a pending registration, and the mailbox
//! that each one waits with.
//!
//! Each registration gets a ticket, so that releasing a registration removes that one and
//! never a later registration of the same id.
use std::collections::HashMap;
use vstd::prelude::*;

verus! {

broadcast use vstd::std_specs::hash::group_hash_axioms;

/// The numeric id that links one remote runtime to one host-side handle.
pub type ClientId = u16;

/// `register` was called for an id that already has a live entry.
#[derive(Clone, Copy, PartialEq, Eq, Structural, Debug)]
pub struct IdentityCollision {
    pub id: ClientId,
}

/// A pending registration: its ticket and the mailbox it waits with.
pub struct Pending<M> {
    pub ticket: u64,
    pub mailbox: M,
}

/// Pending registrations keyed by client id, at most one per id.
pub struct IdentityRegistry<M> {
    entries: HashMap<ClientId, Pending<M>>,
    next_ticket: u64,
}

/// Registration succeeds exactly when the id has no live entry.
pub open spec fn can_register<M>(m: Map<ClientId, Pending<M>>, id: ClientId) -> bool {
    !m.contains_key(id)
}

/// The entries after a successful registration.
pub open spec fn registered<M>(
    m: Map<ClientId, Pending<M>>,
    id: ClientId,
    ticket: u64,
    mailbox: M,
) -> Map<ClientId, Pending<M>> {
    m.insert(id, Pending { ticket, mailbox })
}

/// The entries after the entry of `id` is taken (claimed by a connection).
pub open spec fn taken<M>(m: Map<ClientId, Pending<M>>, id: ClientId) -> Map<
    ClientId,
    Pending<M>,
> {
    m.remove(id)
}

/// The entries after the registration of `id` with `ticket` is released: it goes if it is
/// still there, and anything else stays.
pub open spec fn released<M>(m: Map<ClientId, Pending<M>>, id: ClientId, ticket: u64) -> Map<
    ClientId,
    Pending<M>,
> {
    if m.contains_key(id) && m[id].ticket == ticket {
        m.remove(id)
    } else {
        m
    }
}

/// An id that was just registered cannot be registered again; once its entry is taken it
/// can be registered again.
pub proof fn lemma_registration_exclusive<M>(
    m: Map<ClientId, Pending<M>>,
    id: ClientId,
    ticket: u64,
    mailbox: M,
)
    ensures
        !can_register(registered(m, id, ticket, mailbox), id),
        can_register(taken(registered(m, id, ticket, mailbox), id), id),
        forall|m2: Map<ClientId, Pending<M>>| #[trigger] can_register(taken(m2, id), id),
{
}

/// Releasing a registration that nobody claimed makes its id registrable at once; a
/// release with another ticket (a stale handle) leaves a newer registration in place.
pub proof fn lemma_release_frees_id<M>(
    m: Map<ClientId, Pending<M>>,
    id: ClientId,
    ticket: u64,
    mailbox: M,
    other_ticket: u64,
)
    ensures
        can_register(released(registered(m, id, ticket, mailbox), id, ticket), id),
        other_ticket != ticket ==> released(registered(m, id, ticket, mailbox), id, other_ticket)
            == registered(m, id, ticket, mailbox),
{
}

/// Registering, taking or releasing one id leaves the entry of every other id as it was.
pub proof fn lemma_ids_independent<M>(
    m: Map<ClientId, Pending<M>>,
    id: ClientId,
    other: ClientId,
    ticket: u64,
    mailbox: M,
)
    requires
        id != other,
    ensures
        registered(m, id, ticket, mailbox).contains_key(other) == m.contains_key(other),
        taken(m, id).contains_key(other) == m.contains_key(other),
        released(m, id, ticket).contains_key(other) == m.contains_key(other),
        m.contains_key(other) ==> {
            &&& registered(m, id, ticket, mailbox)[other] == m[other]
            &&& taken(m, id)[other] == m[other]
            &&& released(m, id, ticket)[other] == m[other]
        },
{
}

impl<M> View for IdentityRegistry<M> {
    type V = Map<ClientId, Pending<M>>;

    closed spec fn view(&self) -> Map<ClientId, Pending<M>> {
        self.entries@
    }
}

impl<M> IdentityRegistry<M> {
    /// The ticket that the next registration will get.
    pub closed spec fn issued(&self) -> u64 {
        self.next_ticket
    }

    /// Every live entry has a ticket below the next one to be issued, so tickets of live
    /// entries are never handed out again.
    pub open spec fn wf(&self) -> bool {
        forall|id: ClientId| #[trigger] self@.contains_key(id) ==> self@[id].ticket < self.issued()
    }

    /// An empty registry.
    pub fn new() -> (r: IdentityRegistry<M>)
        ensures
            r.wf(),
            r@ == Map::<ClientId, Pending<M>>::empty(),
            r.issued() == 0,
    {
        IdentityRegistry { entries: HashMap::new(), next_ticket: 0 }
    }

    /// Whether another registration can still get a fresh ticket.
    pub fn can_issue(&self) -> (r: bool)
        ensures
            r == (self.issued() < u64::MAX),
    {
        self.next_ticket < u64::MAX
    }

    /// Whether `id` has a live (pending) entry.
    pub fn contains(&self, id: ClientId) -> (r: bool)
        ensures
            r == self@.contains_key(id),
    {
        self.entries.contains_key(&id)
    }

    /// Registers `mailbox` for `id` and returns the registration's ticket; fails, leaving the
    /// registry as it was, when `id` already has a live entry.
    pub fn register(&mut self, id: ClientId, mailbox: M) -> (r: Result<u64, IdentityCollision>)
        requires
            old(self).wf(),
            old(self).issued() < u64::MAX,
        ensures
            final(self).wf(),
            r is Ok <==> can_register(old(self)@, id),
            match r {
                Ok(t) => {
                    &&& t == old(self).issued()
                    &&& final(self)@ == registered(old(self)@, id, t, mailbox)
                    &&& final(self).issued() == old(self).issued() + 1
                },
                Err(e) => {
                    &&& e.id == id
                    &&& final(self)@ == old(self)@
                    &&& final(self).issued() == old(self).issued()
                },
            },
    {
        if self.entries.contains_key(&id) {
            return Err(IdentityCollision { id });
        }
        let ticket = self.next_ticket;
        self.entries.insert(id, Pending { ticket, mailbox });
        self.next_ticket = ticket + 1;
        proof {
            assert forall|k: ClientId| #[trigger] self@.contains_key(k) implies self@[k].ticket
                < self.issued() by {
                if k != id {
                    assert(old(self)@.contains_key(k));
                }
            }
        }
        Ok(ticket)
    }

    /// Removes and returns the pending entry of `id`, if there is one.
    pub fn take(&mut self, id: ClientId) -> (r: Option<M>)
        requires
            old(self).wf(),
        ensures
            final(self).wf(),
            final(self)@ == taken(old(self)@, id),
            final(self).issued() == old(self).issued(),
            match r {
                Some(m) => old(self)@.contains_key(id) && m == old(self)@[id].mailbox,
                None => !old(self)@.contains_key(id),
            },
    {
        let r = match self.entries.remove(&id) {
            Some(p) => Some(p.mailbox),
            None => None,
        };
        proof {
            assert forall|k: ClientId| #[trigger] self@.contains_key(k) implies self@[k].ticket
                < self.issued() by {
                assert(old(self)@.contains_key(k));
            }
        }
        r
    }

    /// Removes the registration of `id` made with `ticket` if it is still pending; does
    /// nothing when it was claimed already or a later registration holds the id.
    pub fn release(&mut self, id: ClientId, ticket: u64)
        requires
            old(self).wf(),
        ensures
            final(self).wf(),
            final(self)@ == released(old(self)@, id, ticket),
            final(self).issued() == old(self).issued(),
    {
        let pending = match self.entries.get(&id) {
            Some(p) => p.ticket == ticket,
            None => false,
        };
        if pending {
            self.entries.remove(&id);
        }
        proof {
            assert forall|k: ClientId| #[trigger] self@.contains_key(k) implies self@[k].ticket
                < self.issued() by {
                assert(old(self)@.contains_key(k));
            }
        }
    }
}

} // verus!
