use vstd::prelude::*;

verus! {

/// Identifier of one unit of work; never shared by two units of one issuer.
#[derive(Clone, Copy, Debug, PartialEq, Eq, Hash, Structural)]
pub struct SystemId {
    pub id: u64,
}

/// Hands out identifiers in strictly increasing order.
pub struct IdIssuer {
    next: u64,
    issued: Ghost<Set<u64>>,
}

impl IdIssuer {
    /// Every identifier issued so far.
    pub closed spec fn issued(&self) -> Set<u64> {
        self.issued@
    }

    /// The identifier the next call of `issue` returns.
    pub closed spec fn upcoming(&self) -> u64 {
        self.next
    }

    pub closed spec fn wf(&self) -> bool {
        &&& self.issued@.finite()
        &&& forall|i: u64| #[trigger] self.issued@.contains(i) ==> i < self.next
    }

    pub fn new() -> (r: IdIssuer)
        ensures
            r.wf(),
            r.issued() == Set::<u64>::empty(),
            r.upcoming() == 0,
    {
        IdIssuer { next: 0, issued: Ghost(Set::empty()) }
    }

    /// The identifier the next call of `issue` returns.
    pub fn peek(&self) -> (r: u64)
        ensures
            r == self.upcoming(),
    {
        self.next
    }

    /// Issues a fresh identifier.
    pub fn issue(&mut self) -> (r: SystemId)
        requires
            old(self).wf(),
            old(self).upcoming() < u64::MAX,
        ensures
            final(self).wf(),
            r.id == old(self).upcoming(),
            final(self).upcoming() == old(self).upcoming() + 1,
            !old(self).issued().contains(r.id),
            final(self).issued() == old(self).issued().insert(r.id),
            final(self).issued().len() == old(self).issued().len() + 1,
    {
        let id = self.next;
        self.next = self.next + 1;
        self.issued = Ghost(self.issued@.insert(id));
        SystemId { id }
    }
}

/// An issuer never hands out an identifier twice: every identifier issued so
/// far lies below the next one, so the next one is new, and each call adds
/// exactly one identifier to the finite set of those issued.
pub proof fn lemma_next_is_fresh(issuer: IdIssuer)
    requires
        issuer.wf(),
    ensures
        issuer.issued().finite(),
        forall|i: u64| #[trigger] issuer.issued().contains(i) ==> i < issuer.upcoming(),
        !issuer.issued().contains(issuer.upcoming()),
        issuer.issued().insert(issuer.upcoming()).len() == issuer.issued().len() + 1,
{
}

} // verus!
