use vstd::prelude::*;
use crate::text::str_eq;

verus! {

/// The default cap on simultaneous deliveries to one destination.
pub const DEFAULT_MAX_PER_DESTINATION: u32 = 5;

/// A place taken in the limiter for one delivery to a destination; hand it
/// back with `ConcurrencyLimiter::release` when the delivery ends. Only
/// `ConcurrencyLimiter::acquire` makes one.
#[derive(Debug)]
pub struct DeliverySlot {
    destination: String,
}

impl DeliverySlot {
    /// The destination the slot was taken for.
    pub closed spec fn dest(&self) -> Seq<char> {
        self.destination@
    }

    pub fn destination(&self) -> (destination: &str)
        ensures
            destination@ == self.dest(),
    {
        self.destination.as_str()
    }
}

/// Caps the deliveries in flight to each destination; a cap of zero
/// disables the limit.
pub struct ConcurrencyLimiter {
    max_per_destination: u32,
    in_flight: Vec<(String, u32)>,
}

/// The number of deliveries in flight to `destination` recorded in the
/// entries.
pub open spec fn count_in(entries: Seq<(String, u32)>, destination: Seq<char>) -> nat
    decreases entries.len(),
{
    if entries.len() == 0 {
        0
    } else {
        count_in(entries.drop_last(), destination) + if entries.last().0@ == destination {
            entries.last().1 as nat
        } else {
            0
        }
    }
}

proof fn lemma_count_push(entries: Seq<(String, u32)>, e: (String, u32), d: Seq<char>)
    ensures
        count_in(entries.push(e), d) == count_in(entries, d) + if e.0@ == d { e.1 as nat } else { 0 },
{
    assert(entries.push(e).drop_last() =~= entries);
}

proof fn lemma_count_absent(entries: Seq<(String, u32)>, d: Seq<char>)
    requires
        forall|i: int| 0 <= i < entries.len() ==> (#[trigger] entries[i]).0@ != d,
    ensures
        count_in(entries, d) == 0,
    decreases entries.len(),
{
    if entries.len() > 0 {
        lemma_count_absent(entries.drop_last(), d);
    }
}

proof fn lemma_count_update(entries: Seq<(String, u32)>, idx: int, e: (String, u32), d: Seq<char>)
    requires
        0 <= idx < entries.len(),
        e.0@ == entries[idx].0@,
    ensures
        count_in(entries.update(idx, e), d) + (if e.0@ == d { entries[idx].1 as nat } else { 0 })
            == count_in(entries, d) + (if e.0@ == d { e.1 as nat } else { 0 }),
    decreases entries.len(),
{
    let u = entries.update(idx, e);
    if idx == entries.len() - 1 {
        assert(u.drop_last() =~= entries.drop_last());
    } else {
        assert(u.drop_last() =~= entries.drop_last().update(idx, e));
        lemma_count_update(entries.drop_last(), idx, e, d);
    }
}

proof fn lemma_count_remove(entries: Seq<(String, u32)>, idx: int, d: Seq<char>)
    requires
        0 <= idx < entries.len(),
    ensures
        count_in(entries.remove(idx), d) + (if entries[idx].0@ == d { entries[idx].1 as nat } else { 0 })
            == count_in(entries, d),
    decreases entries.len(),
{
    let r = entries.remove(idx);
    if idx == entries.len() - 1 {
        assert(r =~= entries.drop_last());
    } else {
        assert(r.drop_last() =~= entries.drop_last().remove(idx));
        lemma_count_remove(entries.drop_last(), idx, d);
    }
}

proof fn lemma_count_unique(entries: Seq<(String, u32)>, idx: int)
    requires
        0 <= idx < entries.len(),
        forall|i: int, j: int| 0 <= i < j < entries.len() ==> (#[trigger] entries[i]).0@ != (#[trigger] entries[j]).0@,
    ensures
        count_in(entries, entries[idx].0@) == entries[idx].1,
    decreases entries.len(),
{
    let d = entries[idx].0@;
    if idx == entries.len() - 1 {
        assert forall|i: int| 0 <= i < entries.drop_last().len() implies (#[trigger] entries.drop_last()[i]).0@ != d by {
            assert(entries[i] == entries.drop_last()[i]);
        }
        lemma_count_absent(entries.drop_last(), d);
    } else {
        let init = entries.drop_last();
        assert forall|i: int, j: int| 0 <= i < j < init.len() implies (#[trigger] init[i]).0@ != (#[trigger] init[j]).0@ by {
            assert(init[i] == entries[i] && init[j] == entries[j]);
        }
        assert(init[idx] == entries[idx]);
        lemma_count_unique(init, idx);
        assert(entries.last().0@ != d);
    }
}

impl ConcurrencyLimiter {
    /// The deliveries in flight to a destination.
    pub closed spec fn count(&self, destination: Seq<char>) -> nat {
        count_in(self.in_flight@, destination)
    }

    /// The cap per destination; zero for none.
    pub closed spec fn cap(&self) -> u32 {
        self.max_per_destination
    }

    /// Each destination is recorded once, with a positive count that stays
    /// within the cap.
    pub closed spec fn well_formed(&self) -> bool {
        &&& forall|i: int, j: int|
            0 <= i < j < self.in_flight@.len() ==> (#[trigger] self.in_flight@[i]).0@ != (
            #[trigger] self.in_flight@[j]).0@
        &&& forall|i: int| 0 <= i < self.in_flight@.len() ==> (#[trigger] self.in_flight@[i]).1 > 0
        &&& self.max_per_destination != 0 ==> forall|i: int|
            0 <= i < self.in_flight@.len() ==> (#[trigger] self.in_flight@[i]).1 <= self.max_per_destination
    }

    /// The cap holds for every destination of a well-formed limiter.
    pub proof fn lemma_within_cap(&self, destination: Seq<char>)
        requires
            self.well_formed(),
        ensures
            self.cap() != 0 ==> self.count(destination) <= self.cap(),
    {
        if exists|i: int| 0 <= i < self.in_flight@.len() && (#[trigger] self.in_flight@[i]).0@ == destination {
            let i = choose|i: int| 0 <= i < self.in_flight@.len() && (#[trigger] self.in_flight@[i]).0@ == destination;
            lemma_count_unique(self.in_flight@, i);
        } else {
            lemma_count_absent(self.in_flight@, destination);
        }
    }

    /// The number of destinations the limiter keeps a count for.
    pub closed spec fn kept_destinations(&self) -> nat {
        self.in_flight@.len()
    }

    /// A well-formed limiter keeps a count only for destinations with a
    /// delivery in flight: it tracks none exactly when nothing is in flight.
    pub proof fn lemma_kept_only_live(&self)
        requires
            self.well_formed(),
        ensures
            (self.kept_destinations() == 0) <==> (forall|d: Seq<char>| self.count(d) == 0),
    {
        if self.in_flight@.len() > 0 {
            lemma_count_unique(self.in_flight@, 0);
            assert(self.count(self.in_flight@[0].0@) > 0);
        }
    }

    /// How many destinations the limiter keeps a count for.
    pub fn destinations_kept(&self) -> (n: usize)
        requires
            self.well_formed(),
        ensures
            n == self.kept_destinations(),
            (n == 0) <==> (forall|d: Seq<char>| self.count(d) == 0),
    {
        proof {
            self.lemma_kept_only_live();
        }
        self.in_flight.len()
    }

    pub fn new(max_per_destination: u32) -> (limiter: Self)
        ensures
            limiter.well_formed(),
            limiter.cap() == max_per_destination,
            forall|d: Seq<char>| limiter.count(d) == 0,
    {
        ConcurrencyLimiter { max_per_destination, in_flight: Vec::new() }
    }

    pub fn max_per_destination(&self) -> (cap: u32)
        ensures
            cap == self.cap(),
    {
        self.max_per_destination
    }

    fn position(&self, destination: &str) -> (idx: Option<usize>)
        ensures
            match idx {
                Some(i) => i < self.in_flight@.len() && self.in_flight@[i as int].0@ == destination@,
                None => forall|i: int| 0 <= i < self.in_flight@.len() ==> (#[trigger] self.in_flight@[i]).0@ != destination@,
            },
    {
        let mut i: usize = 0;
        while i < self.in_flight.len()
            invariant
                i <= self.in_flight@.len(),
                forall|j: int| 0 <= j < i ==> (#[trigger] self.in_flight@[j]).0@ != destination@,
            decreases self.in_flight@.len() - i,
        {
            if str_eq(self.in_flight[i].0.as_str(), destination) {
                return Some(i);
            }
            i += 1;
        }
        None
    }

    /// The deliveries in flight to a destination.
    pub fn in_flight(&self, destination: &str) -> (count: u32)
        requires
            self.well_formed(),
        ensures
            count == self.count(destination@),
    {
        match self.position(destination) {
            Some(i) => {
                proof {
                    lemma_count_unique(self.in_flight@, i as int);
                }
                self.in_flight[i].1
            },
            None => {
                proof {
                    lemma_count_absent(self.in_flight@, destination@);
                }
                0
            },
        }
    }

    /// Takes a slot for a delivery to `destination` unless the cap is
    /// reached; with no cap every request is granted.
    pub fn acquire(&mut self, destination: &str) -> (slot: Option<DeliverySlot>)
        requires
            old(self).well_formed(),
            old(self).count(destination@) < u32::MAX,
        ensures
            final(self).well_formed(),
            final(self).cap() == old(self).cap(),
            (slot is None) == (old(self).cap() != 0 && old(self).count(destination@) >= old(self).cap()),
            slot matches Some(s) ==> s.dest() == destination@,
            slot is Some ==> final(self).count(destination@) == old(self).count(destination@) + 1,
            forall|d: Seq<char>| d != destination@ ==> final(self).count(d) == old(self).count(d),
            slot is None ==> forall|d: Seq<char>| final(self).count(d) == old(self).count(d),
            final(self).cap() != 0 ==> final(self).count(destination@) <= final(self).cap(),
    {
        let ghost before = self.in_flight@;
        match self.position(destination) {
            Some(i) => {
                let current = self.in_flight[i].1;
                proof {
                    lemma_count_unique(before, i as int);
                }
                if self.max_per_destination != 0 && current >= self.max_per_destination {
                    proof {
                        self.lemma_within_cap(destination@);
                    }
                    return None;
                }
                let name = self.in_flight[i].0.clone();
                let e = (name, current + 1);
                self.in_flight.set(i, e);
                proof {
                    assert(self.in_flight@ == before.update(i as int, e));
                    assert forall|d: Seq<char>| #![auto] count_in(self.in_flight@, d) == count_in(before, d)
                        + if d == destination@ { 1nat } else { 0 } by {
                        lemma_count_update(before, i as int, e, d);
                    }
                    assert forall|a: int, b: int| 0 <= a < b < self.in_flight@.len() implies (#[trigger] self.in_flight@[a]).0@
                        != (#[trigger] self.in_flight@[b]).0@ by {
                        assert(before[a].0@ != before[b].0@);
                    }
                }
            },
            None => {
                proof {
                    lemma_count_absent(before, destination@);
                }
                if self.max_per_destination != 0 && 0 >= self.max_per_destination {
                    proof {
                        self.lemma_within_cap(destination@);
                    }
                    return None;
                }
                let e = (destination.to_string(), 1u32);
                self.in_flight.push(e);
                proof {
                    assert(self.in_flight@ == before.push(e));
                    assert forall|d: Seq<char>| #![auto] count_in(self.in_flight@, d) == count_in(before, d)
                        + if d == destination@ { 1nat } else { 0 } by {
                        lemma_count_push(before, e, d);
                    }
                }
            },
        }
        proof {
            self.lemma_within_cap(destination@);
        }
        Some(DeliverySlot { destination: destination.to_string() })
    }

    /// Hands a slot back: the delivery it stood for has ended. A destination
    /// with nothing left in flight is forgotten.
    pub fn release(&mut self, slot: DeliverySlot)
        requires
            old(self).well_formed(),
        ensures
            final(self).well_formed(),
            final(self).cap() == old(self).cap(),
            old(self).count(slot.dest()) > 0 ==> final(self).count(slot.dest()) == old(self).count(
                slot.dest(),
            ) - 1,
            old(self).count(slot.dest()) == 0 ==> final(self).count(slot.dest()) == 0,
            forall|d: Seq<char>| d != slot.dest() ==> final(self).count(d) == old(self).count(d),
    {
        let ghost before = self.in_flight@;
        let ghost dest = slot.dest();
        match self.position(slot.destination.as_str()) {
            Some(i) => {
                let current = self.in_flight[i].1;
                proof {
                    lemma_count_unique(before, i as int);
                }
                if current > 1 {
                    let name = self.in_flight[i].0.clone();
                    let e = (name, current - 1);
                    self.in_flight.set(i, e);
                    proof {
                        assert(self.in_flight@ == before.update(i as int, e));
                        assert forall|d: Seq<char>| #![auto] count_in(self.in_flight@, d) + (if d == dest { 1nat } else { 0 })
                            == count_in(before, d) by {
                            lemma_count_update(before, i as int, e, d);
                        }
                        assert forall|a: int, b: int| 0 <= a < b < self.in_flight@.len() implies (#[trigger] self.in_flight@[a]).0@
                            != (#[trigger] self.in_flight@[b]).0@ by {
                            assert(before[a].0@ != before[b].0@);
                        }
                    }
                } else {
                    self.in_flight.remove(i);
                    proof {
                        assert(self.in_flight@ == before.remove(i as int));
                        assert forall|d: Seq<char>| #![auto] count_in(self.in_flight@, d) + (if d == dest { 1nat } else { 0 })
                            == count_in(before, d) by {
                            lemma_count_remove(before, i as int, d);
                        }
                        assert forall|a: int, b: int| 0 <= a < b < self.in_flight@.len() implies (#[trigger] self.in_flight@[a]).0@
                            != (#[trigger] self.in_flight@[b]).0@ by {
                            let a2 = if a < i { a } else { a + 1 };
                            let b2 = if b < i { b } else { b + 1 };
                            assert(self.in_flight@[a] == before[a2] && self.in_flight@[b] == before[b2]);
                        }
                        assert forall|a: int| 0 <= a < self.in_flight@.len() implies (#[trigger] self.in_flight@[a]).1 > 0
                            && (self.max_per_destination != 0 ==> self.in_flight@[a].1 <= self.max_per_destination) by {
                            let a2 = if a < i { a } else { a + 1 };
                            assert(self.in_flight@[a] == before[a2]);
                        }
                    }
                }
            },
            None => {
                proof {
                    lemma_count_absent(before, dest);
                }
            },
        }
    }
}

impl Default for ConcurrencyLimiter {
    fn default() -> (limiter: Self)
        ensures
            limiter.well_formed(),
            limiter.cap() == DEFAULT_MAX_PER_DESTINATION,
            forall|d: Seq<char>| limiter.count(d) == 0,
    {
        ConcurrencyLimiter::new(DEFAULT_MAX_PER_DESTINATION)
    }
}

} // verus!
