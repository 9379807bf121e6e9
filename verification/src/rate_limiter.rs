//! A per-client request allowance.
use vstd::prelude::*;
use crate::keyed::StringMap;

verus! {

/// Requests allowed to each client.
pub const MAX_VISITS: u32 = 5;

/// How many requests each client, by its address, was allowed.
pub struct RateLimiter {
    visitors: StringMap<u32>,
}

impl View for RateLimiter {
    type V = Map<Seq<char>, u32>;

    closed spec fn view(&self) -> Map<Seq<char>, u32> {
        self.visitors@
    }
}

/// The number of requests allowed to `addr` so far.
pub open spec fn visits(m: Map<Seq<char>, u32>, addr: Seq<char>) -> u32 {
    if m.contains_key(addr) { m[addr] } else { 0 }
}

/// Whether a request of `addr` is allowed: fewer than `MAX_VISITS` so far.
pub open spec fn admits(m: Map<Seq<char>, u32>, addr: Seq<char>) -> bool {
    visits(m, addr) < MAX_VISITS
}

/// The counts after a request of `addr`: one more when it is allowed,
/// unchanged when it is refused.
pub open spec fn counted(m: Map<Seq<char>, u32>, addr: Seq<char>) -> Map<Seq<char>, u32> {
    if admits(m, addr) {
        m.insert(addr, (visits(m, addr) + 1) as u32)
    } else {
        m
    }
}

/// How many of `n` consecutive requests of `addr` are allowed, starting
/// from the counts `m`.
pub open spec fn allowed_of(m: Map<Seq<char>, u32>, addr: Seq<char>, n: nat) -> nat
    decreases n,
{
    if n == 0 {
        0
    } else {
        (if admits(m, addr) { 1nat } else { 0nat }) + allowed_of(counted(m, addr), addr, (n - 1) as nat)
    }
}

impl RateLimiter {
    /// No client counted yet, and no count above the allowance.
    pub closed spec fn wf(&self) -> bool {
        &&& self.visitors.wf()
        &&& forall|k: Seq<char>| #[trigger] self.visitors@.contains_key(k) ==> self.visitors@[k] <= MAX_VISITS
    }

    /// No client was allowed more than `MAX_VISITS` requests.
    pub proof fn lemma_bounded(&self)
        requires
            self.wf(),
        ensures
            forall|k: Seq<char>| #[trigger] self@.contains_key(k) ==> self@[k] <= MAX_VISITS,
    {
    }

    pub fn new() -> (r: Self)
        ensures
            r.wf(),
            r@ == Map::<Seq<char>, u32>::empty(),
    {
        RateLimiter { visitors: StringMap::new() }
    }

    /// Allows a request of `addr` while it had fewer than five, and counts
    /// it; refuses it afterwards.
    pub fn allow(&mut self, addr: &str) -> (r: bool)
        requires
            old(self).wf(),
        ensures
            final(self).wf(),
            r == admits(old(self)@, addr@),
            final(self)@ == counted(old(self)@, addr@),
    {
        let counter: u32 = match self.visitors.get(addr) {
            Some(c) => *c,
            None => 0,
        };
        if counter >= MAX_VISITS {
            false
        } else {
            self.visitors.insert(addr.to_owned(), counter + 1);
            true
        }
    }
}

} // verus!
