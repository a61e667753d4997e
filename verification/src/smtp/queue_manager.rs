use vstd::prelude::*;
use crate::smtp::queue_model::{earliest_pending, QueuedMessage};

verus! {

/// How long the manager sleeps at most between two scans, in seconds.
pub const REFRESH_INTERVAL: u64 = 300;

/// Where the queue id sits in a stored key, and its width.
pub const QUEUE_ID_OFFSET: usize = 6;
pub const QUEUE_ID_LEN: usize = 4;

/// A queued message that has come due, with its id.
#[derive(Debug, Clone, PartialEq, Eq)]
pub struct DueMessage {
    pub id: u32,
    pub message: QueuedMessage,
}

/// What a scan found: the messages due now, and the earliest instant at
/// which another one will be.
#[derive(Debug, Clone, PartialEq, Eq)]
pub struct DueBatch {
    pub messages: Vec<DueMessage>,
    pub next_due: Option<u64>,
}

/// The stored messages that are due: not complete, and with a due recipient.
pub open spec fn due_records(records: Seq<(u32, QueuedMessage)>, now: u64) -> Seq<(u32, QueuedMessage)>
    decreases records.len(),
{
    if records.len() == 0 {
        Seq::empty()
    } else {
        let rest = due_records(records.drop_last(), now);
        let m = records.last().1;
        if !m.complete() && m.has_due(now) {
            rest.push(records.last())
        } else {
            rest
        }
    }
}

/// The earlier of two optional instants.
pub open spec fn earlier(a: Option<u64>, b: Option<u64>) -> Option<u64> {
    match (a, b) {
        (Some(x), Some(y)) => Some(if x < y { x } else { y }),
        (Some(x), None) => Some(x),
        (None, _) => b,
    }
}

/// The earliest pending instant among the stored messages that are neither
/// complete nor due.
pub open spec fn next_wakeup(records: Seq<(u32, QueuedMessage)>, now: u64) -> Option<u64>
    decreases records.len(),
{
    if records.len() == 0 {
        None
    } else {
        let rest = next_wakeup(records.drop_last(), now);
        let m = records.last().1;
        if !m.complete() && !m.has_due(now) {
            earlier(rest, earliest_pending(m.recipients@))
        } else {
            rest
        }
    }
}

/// Sorts a scan of the queue: complete messages are skipped, due ones are
/// collected in order, and the others give the next wakeup.
pub fn scan_due(records: Vec<(u32, QueuedMessage)>, now: u64) -> (batch: DueBatch)
    ensures
        batch.messages@.len() == due_records(records@, now).len(),
        forall|i: int| 0 <= i < batch.messages@.len() ==> (#[trigger] batch.messages@[i]).id == due_records(records@, now)[i].0
            && batch.messages@[i].message == due_records(records@, now)[i].1,
        batch.next_due == next_wakeup(records@, now),
{
    let ghost all = records@;
    let total = records.len();
    let mut rest = records;
    let mut messages: Vec<DueMessage> = Vec::new();
    let mut next_due: Option<u64> = None;
    let mut k: usize = 0;
    while rest.len() > 0
        invariant
            k + rest@.len() == all.len(),
            all.len() == total,
            rest@ == all.subrange(k as int, all.len() as int),
            messages@.len() == due_records(all.take(k as int), now).len(),
            forall|i: int| 0 <= i < messages@.len() ==> (#[trigger] messages@[i]).id == due_records(all.take(k as int), now)[i].0
                && messages@[i].message == due_records(all.take(k as int), now)[i].1,
            next_due == next_wakeup(all.take(k as int), now),
        decreases rest@.len(),
    {
        let (id, message) = rest.remove(0);
        assert(all.take(k + 1).drop_last() =~= all.take(k as int));
        assert(all.take(k + 1).last() == all[k as int]);
        if !message.is_complete() {
            if message.has_due_recipient(now) {
                messages.push(DueMessage { id, message });
            } else {
                let due = message.next_due();
                next_due = match (next_due, due) {
                    (Some(x), Some(y)) => Some(if x < y { x } else { y }),
                    (Some(x), None) => Some(x),
                    (None, d) => d,
                };
            }
        }
        k += 1;
        assert(rest@ =~= all.subrange(k as int, all.len() as int));
    }
    assert(all.take(k as int) =~= all);
    DueBatch { messages, next_due }
}

/// The stored messages that are not complete.
pub open spec fn incomplete_records(records: Seq<(u32, QueuedMessage)>) -> Seq<(u32, QueuedMessage)>
    decreases records.len(),
{
    if records.len() == 0 {
        Seq::empty()
    } else {
        let rest = incomplete_records(records.drop_last());
        if !records.last().1.complete() {
            rest.push(records.last())
        } else {
            rest
        }
    }
}

/// Lists the queue: every message that is not complete, in order.
pub fn scan_all(records: Vec<(u32, QueuedMessage)>) -> (listed: Vec<DueMessage>)
    ensures
        listed@.len() == incomplete_records(records@).len(),
        forall|i: int| 0 <= i < listed@.len() ==> (#[trigger] listed@[i]).id == incomplete_records(records@)[i].0
            && listed@[i].message == incomplete_records(records@)[i].1,
{
    let ghost all = records@;
    let total = records.len();
    let mut rest = records;
    let mut listed: Vec<DueMessage> = Vec::new();
    let mut k: usize = 0;
    while rest.len() > 0
        invariant
            k + rest@.len() == all.len(),
            all.len() == total,
            rest@ == all.subrange(k as int, all.len() as int),
            listed@.len() == incomplete_records(all.take(k as int)).len(),
            forall|i: int| 0 <= i < listed@.len() ==> (#[trigger] listed@[i]).id == incomplete_records(all.take(k as int))[i].0
                && listed@[i].message == incomplete_records(all.take(k as int))[i].1,
        decreases rest@.len(),
    {
        let (id, message) = rest.remove(0);
        assert(all.take(k + 1).drop_last() =~= all.take(k as int));
        assert(all.take(k + 1).last() == all[k as int]);
        if !message.is_complete() {
            listed.push(DueMessage { id, message });
        }
        k += 1;
        assert(rest@ =~= all.subrange(k as int, all.len() as int));
    }
    assert(all.take(k as int) =~= all);
    listed
}

/// How long to sleep before the next scan: until the next due instant, but
/// never longer than the refresh interval; at once when it has passed.
pub fn next_wake(now: u64, next_due: Option<u64>) -> (delay: u64)
    ensures
        delay == match next_due {
            Some(due) => if due <= now {
                0
            } else if due - now < REFRESH_INTERVAL {
                (due - now) as u64
            } else {
                REFRESH_INTERVAL
            },
            None => REFRESH_INTERVAL,
        },
{
    match next_due {
        Some(due) => {
            let wait = due.saturating_sub(now);
            if wait < REFRESH_INTERVAL {
                wait
            } else {
                REFRESH_INTERVAL
            }
        },
        None => REFRESH_INTERVAL,
    }
}

/// A stored key too short to carry a queue id.
#[derive(Debug, Clone, Copy, PartialEq, Eq, Structural)]
pub enum QueueKeyError {
    TooShort,
}

/// The big-endian number of four bytes.
pub open spec fn be_u32(b0: u8, b1: u8, b2: u8, b3: u8) -> int {
    b0 * 0x100_0000 + b1 * 0x1_0000 + b2 * 0x100 + b3
}

/// The queue id carried by a stored key, big-endian after the subspace,
/// account and collection bytes.
pub fn queue_id_of(key: &[u8]) -> (id: Result<u32, QueueKeyError>)
    ensures
        key@.len() < QUEUE_ID_OFFSET + QUEUE_ID_LEN ==> id == Err::<u32, QueueKeyError>(QueueKeyError::TooShort),
        key@.len() >= QUEUE_ID_OFFSET + QUEUE_ID_LEN ==> (id matches Ok(v) && v == be_u32(key@[6], key@[7], key@[8], key@[9])),
{
    if key.len() < QUEUE_ID_OFFSET + QUEUE_ID_LEN {
        return Err(QueueKeyError::TooShort);
    }
    let b0 = key[6] as u32;
    let b1 = key[7] as u32;
    let b2 = key[8] as u32;
    let b3 = key[9] as u32;
    Ok(b0 * 0x100_0000 + b1 * 0x1_0000 + b2 * 0x100 + b3)
}

} // verus!
