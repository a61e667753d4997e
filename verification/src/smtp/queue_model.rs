use vstd::prelude::*;
use crate::sieve::instruction::AddressPart;
use crate::sieve::message::{address_part, spec_address_part};
use crate::text::copy_bytes;

verus! {

/// Where a recipient of a queued message stands.
#[derive(Debug, Clone, PartialEq, Eq)]
pub enum RecipientStatus {
    Scheduled,
    Delivered,
    Deferred(String),
    Bounced(String),
}

impl RecipientStatus {
    /// Still waiting for a delivery: scheduled or deferred.
    pub open spec fn pending(&self) -> bool {
        self is Scheduled || self is Deferred
    }

    pub fn is_pending(&self) -> (pending: bool)
        ensures
            pending == self.pending(),
    {
        match self {
            RecipientStatus::Scheduled => true,
            RecipientStatus::Deferred(_) => true,
            _ => false,
        }
    }

    /// Delivered or bounced: nothing more will be tried.
    pub fn is_settled(&self) -> (settled: bool)
        ensures
            settled == !self.pending(),
    {
        !self.is_pending()
    }
}

/// When the next delivery attempt of a recipient is due, and how many were
/// made.
#[derive(Debug, Clone, Copy, PartialEq, Eq)]
pub struct RetrySchedule {
    pub attempts: u32,
    pub due: u64,
}

impl RetrySchedule {
    pub fn first(due: u64) -> (schedule: Self)
        ensures
            schedule == (RetrySchedule { attempts: 0, due }),
    {
        RetrySchedule { attempts: 0, due }
    }

    pub fn is_due(&self, now: u64) -> (due: bool)
        ensures
            due == (now >= self.due),
    {
        now >= self.due
    }
}

/// When the next delay warning of a recipient is due, and how many were
/// sent.
#[derive(Debug, Clone, Copy, PartialEq, Eq)]
pub struct NotifySchedule {
    pub sent: u32,
    pub due: u64,
}

impl NotifySchedule {
    pub fn first(due: u64) -> (schedule: Self)
        ensures
            schedule == (NotifySchedule { sent: 0, due }),
    {
        NotifySchedule { sent: 0, due }
    }

    pub fn is_due(&self, now: u64) -> (due: bool)
        ensures
            due == (now >= self.due),
    {
        now >= self.due
    }
}

/// When a recipient gives up: at a deadline, or after a number of attempts.
#[derive(Debug, Clone, Copy, PartialEq, Eq)]
pub enum Expiry {
    At(u64),
    Attempts(u32),
}

/// Whether the expiry has lapsed after `attempts` attempts at time `now`.
pub open spec fn expired(expiry: Expiry, attempts: u32, now: u64) -> bool {
    match expiry {
        Expiry::At(deadline) => now >= deadline,
        Expiry::Attempts(limit) => attempts >= limit,
    }
}

impl Expiry {
    pub fn is_expired(&self, attempts: u32, now: u64) -> (lapsed: bool)
        ensures
            lapsed == expired(*self, attempts, now),
    {
        match self {
            Expiry::At(deadline) => now >= *deadline,
            Expiry::Attempts(limit) => attempts >= *limit,
        }
    }
}

/// One recipient of a queued message.
#[derive(Debug, Clone, PartialEq, Eq)]
pub struct QueueRecipient {
    pub address: String,
    pub status: RecipientStatus,
    pub retry: RetrySchedule,
    pub notify: NotifySchedule,
    pub expiry: Expiry,
}

impl QueueRecipient {
    /// A freshly scheduled recipient whose first attempt and first warning
    /// are both due at `due`.
    pub fn new(address: String, due: u64, expiry: Expiry) -> (recipient: Self)
        ensures
            recipient.address == address,
            recipient.status == RecipientStatus::Scheduled,
            recipient.retry == (RetrySchedule { attempts: 0, due }),
            recipient.notify == (NotifySchedule { sent: 0, due }),
            recipient.expiry == expiry,
    {
        QueueRecipient {
            address,
            status: RecipientStatus::Scheduled,
            retry: RetrySchedule::first(due),
            notify: NotifySchedule::first(due),
            expiry,
        }
    }

    /// What follows the last `@` of the address; empty when there is none.
    pub fn domain(&self) -> (domain: String)
        ensures
            domain@ == spec_address_part(self.address@, AddressPart::Domain),
    {
        address_part(self.address.as_str(), AddressPart::Domain)
    }

    pub open spec fn due(&self, now: u64) -> bool {
        self.status.pending() && now >= self.retry.due
    }

    /// Pending, and its retry instant has come.
    pub fn is_due(&self, now: u64) -> (due: bool)
        ensures
            due == self.due(now),
    {
        self.status.is_pending() && self.retry.is_due(now)
    }

    /// Whether its expiry has lapsed, counting the attempts made so far.
    pub fn has_expired(&self, now: u64) -> (lapsed: bool)
        ensures
            lapsed == expired(self.expiry, self.retry.attempts, now),
    {
        self.expiry.is_expired(self.retry.attempts, now)
    }
}

/// A message waiting in the outbound queue.
#[derive(Debug, Clone, PartialEq, Eq)]
pub struct QueuedMessage {
    pub created: u64,
    pub blob_hash: Vec<u8>,
    pub size: u64,
    pub return_path: String,
    pub recipients: Vec<QueueRecipient>,
}

/// The earliest retry instant among the pending recipients, if any is
/// pending.
pub open spec fn earliest_pending(recipients: Seq<QueueRecipient>) -> Option<u64>
    decreases recipients.len(),
{
    if recipients.len() == 0 {
        None
    } else {
        let rest = earliest_pending(recipients.drop_last());
        let last = recipients.last();
        if last.status.pending() {
            match rest {
                None => Some(last.retry.due),
                Some(m) => Some(if last.retry.due < m { last.retry.due } else { m }),
            }
        } else {
            rest
        }
    }
}

impl QueuedMessage {
    pub fn new(
        created: u64,
        blob_hash: &[u8],
        size: u64,
        return_path: String,
        recipients: Vec<QueueRecipient>,
    ) -> (message: Self)
        ensures
            message.created == created,
            message.blob_hash@ == blob_hash@,
            message.size == size,
            message.return_path == return_path,
            message.recipients == recipients,
    {
        QueuedMessage { created, blob_hash: copy_bytes(blob_hash), size, return_path, recipients }
    }

    /// The earliest instant at which a pending recipient is due.
    pub fn next_due(&self) -> (next: Option<u64>)
        ensures
            next == earliest_pending(self.recipients@),
    {
        let mut best: Option<u64> = None;
        let mut i: usize = 0;
        while i < self.recipients.len()
            invariant
                i <= self.recipients@.len(),
                best == earliest_pending(self.recipients@.take(i as int)),
            decreases self.recipients@.len() - i,
        {
            proof {
                assert(self.recipients@.take(i + 1).drop_last() =~= self.recipients@.take(i as int));
            }
            let r = &self.recipients[i];
            if r.status.is_pending() {
                best = match best {
                    None => Some(r.retry.due),
                    Some(m) => Some(if r.retry.due < m { r.retry.due } else { m }),
                };
            }
            i += 1;
        }
        assert(self.recipients@.take(i as int) =~= self.recipients@);
        best
    }

    /// Some recipient is due at `now`.
    pub open spec fn has_due(&self, now: u64) -> bool {
        exists|i: int| 0 <= i < self.recipients@.len() && #[trigger] self.recipients@[i].due(now)
    }

    /// Every recipient is settled.
    pub open spec fn complete(&self) -> bool {
        forall|i: int| 0 <= i < self.recipients@.len() ==> !#[trigger] self.recipients@[i].status.pending()
    }

    /// Whether some recipient is due at `now`.
    pub fn has_due_recipient(&self, now: u64) -> (any_due: bool)
        ensures
            any_due == self.has_due(now),
    {
        let mut i: usize = 0;
        while i < self.recipients.len()
            invariant
                i <= self.recipients@.len(),
                forall|j: int| 0 <= j < i ==> !#[trigger] self.recipients@[j].due(now),
            decreases self.recipients@.len() - i,
        {
            if self.recipients[i].is_due(now) {
                return true;
            }
            i += 1;
        }
        false
    }

    /// Whether every recipient is settled.
    pub fn is_complete(&self) -> (complete: bool)
        ensures
            complete == self.complete(),
    {
        let mut i: usize = 0;
        while i < self.recipients.len()
            invariant
                i <= self.recipients@.len(),
                forall|j: int| 0 <= j < i ==> !#[trigger] self.recipients@[j].status.pending(),
            decreases self.recipients@.len() - i,
        {
            if self.recipients[i].status.is_pending() {
                return false;
            }
            i += 1;
        }
        true
    }
}

/// A message is complete exactly when it has no next due time: the queue
/// skips complete messages and wakes for the others.
pub proof fn lemma_complete_iff_nothing_due(recipients: Seq<QueueRecipient>)
    ensures
        (forall|i: int| 0 <= i < recipients.len() ==> !#[trigger] recipients[i].status.pending()) <==> earliest_pending(
            recipients,
        ) is None,
    decreases recipients.len(),
{
    if recipients.len() > 0 {
        let rest = recipients.drop_last();
        lemma_complete_iff_nothing_due(rest);
        if forall|i: int| 0 <= i < recipients.len() ==> !#[trigger] recipients[i].status.pending() {
            assert forall|i: int| 0 <= i < rest.len() implies !#[trigger] rest[i].status.pending() by {
                assert(rest[i] == recipients[i]);
            }
            assert(!recipients[recipients.len() - 1].status.pending());
        }
        if earliest_pending(recipients) is None {
            assert(!recipients.last().status.pending());
            assert forall|i: int| 0 <= i < recipients.len() implies !#[trigger] recipients[i].status.pending() by {
                if i < recipients.len() - 1 {
                    assert(rest[i] == recipients[i]);
                }
            }
        }
    }
}

/// The next due time of a message is the due time of one of its pending
/// recipients, and no pending recipient is due earlier.
pub proof fn lemma_next_due_is_earliest(recipients: Seq<QueueRecipient>)
    ensures
        earliest_pending(recipients) matches Some(t) ==> (exists|i: int| 0 <= i < recipients.len() && #[trigger] recipients[i].status.pending()
            && recipients[i].retry.due == t) && (forall|i: int| 0 <= i < recipients.len() && #[trigger] recipients[i].status.pending()
            ==> t <= recipients[i].retry.due),
    decreases recipients.len(),
{
    if recipients.len() > 0 {
        let rest = recipients.drop_last();
        lemma_next_due_is_earliest(rest);
        lemma_complete_iff_nothing_due(rest);
        let n = recipients.len() - 1;
        assert forall|i: int| 0 <= i < rest.len() implies #[trigger] rest[i] == recipients[i] by {}
        if let Some(t) = earliest_pending(recipients) {
            if let Some(r) = earliest_pending(rest) {
                let j = choose|j: int| 0 <= j < rest.len() && #[trigger] rest[j].status.pending() && rest[j].retry.due == r;
                assert(recipients[j] == rest[j]);
            }
            assert forall|i: int| 0 <= i < recipients.len() && #[trigger] recipients[i].status.pending() implies t <= recipients[i].retry.due by {
                if i < n {
                    assert(rest[i] == recipients[i]);
                    assert(rest[i].status.pending());
                }
            }
            if recipients[n].status.pending() && recipients[n].retry.due == t {
                assert(recipients[n].status.pending());
            }
        }
    }
}

} // verus!
