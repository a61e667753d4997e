use vstd::prelude::*;
use std::collections::HashMap;

verus! {

broadcast use vstd::std_specs::hash::group_hash_axioms;

/// How long a lease lasts by default, in seconds.
pub const DEFAULT_LEASE: u64 = 300;

/// The answer to a lease request.
#[derive(Clone, Copy, Debug, PartialEq, Eq)]
pub enum Lease {
    Granted,
    Held,
}

impl Lease {
    pub fn is_granted(&self) -> (granted: bool)
        ensures
            granted == (*self is Granted),
    {
        match self {
            Lease::Granted => true,
            Lease::Held => false,
        }
    }
}

/// Whether a lease on `id` is live at `now` in a table of expiry instants.
pub open spec fn held_at(leases: Map<u32, u64>, id: u32, now: u64) -> bool {
    leases.contains_key(id) && now < leases[id]
}

/// The expiry instant of a lease taken at `now`, saturating at the largest
/// time.
pub open spec fn expiry_of(now: u64, lease: u64) -> u64 {
    if now + lease > u64::MAX {
        u64::MAX
    } else {
        (now + lease) as u64
    }
}

/// Which queued messages a delivery worker holds, each until an expiry
/// instant, so that two workers never deliver the same message at once.
pub struct LeaseRegistry {
    held: HashMap<u32, u64>,
    lease: u64,
}

impl LeaseRegistry {
    /// The expiry instant of each recorded lease.
    pub closed spec fn leases(&self) -> Map<u32, u64> {
        self.held@
    }

    /// The length of a lease, in seconds.
    pub closed spec fn lease_secs(&self) -> u64 {
        self.lease
    }

    /// An empty registry whose leases last `lease` seconds.
    pub fn new(lease: u64) -> (registry: Self)
        ensures
            registry.leases() == Map::<u32, u64>::empty(),
            registry.lease_secs() == lease,
    {
        LeaseRegistry { held: HashMap::new(), lease }
    }

    pub fn lease(&self) -> (lease: u64)
        ensures
            lease == self.lease_secs(),
    {
        self.lease
    }

    /// Takes the lease on `id` unless a live one is held: a lapsed lease is
    /// reclaimed, and a granted lease runs until `now + lease`.
    pub fn acquire(&mut self, id: u32, now: u64) -> (outcome: Lease)
        ensures
            final(self).lease_secs() == old(self).lease_secs(),
            (outcome is Held) == held_at(old(self).leases(), id, now),
            outcome is Held ==> final(self).leases() == old(self).leases(),
            outcome is Granted ==> final(self).leases() == old(self).leases().insert(
                id,
                expiry_of(now, old(self).lease_secs()),
            ),
    {
        match self.held.get(&id) {
            Some(expires) => {
                if now < *expires {
                    return Lease::Held;
                }
            },
            None => {},
        }
        self.held.insert(id, now.saturating_add(self.lease));
        Lease::Granted
    }

    /// Gives up the lease on `id`, whether or not one was held.
    pub fn release(&mut self, id: u32)
        ensures
            final(self).lease_secs() == old(self).lease_secs(),
            final(self).leases() == old(self).leases().remove(id),
    {
        self.held.remove(&id);
    }

    /// Whether a live lease on `id` is held at `now`.
    pub fn is_held(&self, id: u32, now: u64) -> (held: bool)
        ensures
            held == held_at(self.leases(), id, now),
    {
        match self.held.get(&id) {
            Some(expires) => now < *expires,
            None => false,
        }
    }
}

impl Default for LeaseRegistry {
    fn default() -> (registry: Self)
        ensures
            registry.leases() == Map::<u32, u64>::empty(),
            registry.lease_secs() == DEFAULT_LEASE,
    {
        LeaseRegistry::new(DEFAULT_LEASE)
    }
}

/// A granted lease excludes every other taker until it lapses, and only the
/// message it was taken for: from the grant at `now` until `now + lease`
/// (saturating), a request for the same message is refused, while requests
/// for other messages see the table as it was.
pub proof fn lemma_granted_lease_excludes(leases: Map<u32, u64>, id: u32, now: u64, lease: u64, other: u32, t: u64)
    ensures
        now <= t < expiry_of(now, lease) ==> held_at(leases.insert(id, expiry_of(now, lease)), id, t),
        t >= expiry_of(now, lease) ==> !held_at(leases.insert(id, expiry_of(now, lease)), id, t),
        other != id ==> held_at(leases.insert(id, expiry_of(now, lease)), other, t) == held_at(leases, other, t),
{
}

/// A released lease is free: the next request for it is granted.
pub proof fn lemma_released_lease_is_free(leases: Map<u32, u64>, id: u32, t: u64)
    ensures
        !held_at(leases.remove(id), id, t),
{
}

} // verus!
