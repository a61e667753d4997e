use vstd::prelude::*;
use crate::smtp::queue_model::{Expiry, NotifySchedule, QueueRecipient, QueuedMessage, RecipientStatus, RetrySchedule};

verus! {

/// What a message is queued with: when it was made, its sender, its
/// recipients with how each gives up, and when the first attempt is due.
pub struct Enqueue<'a> {
    pub created: u64,
    pub return_path: &'a str,
    pub recipients: &'a [(String, Expiry)],
    pub first_due: u64,
}

/// A queued message and the id it is stored under.
pub struct Enqueued {
    pub id: u32,
    pub message: QueuedMessage,
}

/// A recipient freshly scheduled at `due`.
pub open spec fn fresh(r: QueueRecipient, address: String, due: u64, expiry: Expiry) -> bool {
    &&& r.address == address
    &&& r.status == RecipientStatus::Scheduled
    &&& r.retry == (RetrySchedule { attempts: 0, due })
    &&& r.notify == (NotifySchedule { sent: 0, due })
    &&& r.expiry == expiry
}

/// The queue record of a message whose body is stored under `blob_hash`:
/// every recipient is scheduled for the first due instant.
pub fn queued_message(request: &Enqueue, blob_hash: &[u8], raw: &[u8]) -> (message: QueuedMessage)
    ensures
        message.created == request.created,
        message.blob_hash@ == blob_hash@,
        message.size == raw@.len(),
        message.return_path@ == request.return_path@,
        message.recipients@.len() == request.recipients@.len(),
        forall|i: int| 0 <= i < request.recipients@.len() ==> fresh(
            #[trigger] message.recipients@[i],
            request.recipients@[i].0,
            request.first_due,
            request.recipients@[i].1,
        ),
{
    let mut recipients: Vec<QueueRecipient> = Vec::new();
    let mut i: usize = 0;
    while i < request.recipients.len()
        invariant
            i <= request.recipients@.len(),
            recipients@.len() == i,
            forall|j: int| 0 <= j < i ==> fresh(
                #[trigger] recipients@[j],
                request.recipients@[j].0,
                request.first_due,
                request.recipients@[j].1,
            ),
        decreases request.recipients@.len() - i,
    {
        let (address, expiry) = &request.recipients[i];
        let address = address.clone();
        recipients.push(QueueRecipient::new(address, request.first_due, *expiry));
        i += 1;
    }
    let mut return_path = String::new();
    crate::text::push_str(&mut return_path, request.return_path);
    QueuedMessage::new(request.created, blob_hash, raw.len() as u64, return_path, recipients)
}

/// Makes every pending recipient due at `now`; settled ones stay as they are.
pub fn retry_now(message: &mut QueuedMessage, now: u64)
    ensures
        final(message).created == old(message).created,
        final(message).blob_hash == old(message).blob_hash,
        final(message).size == old(message).size,
        final(message).return_path == old(message).return_path,
        final(message).recipients@.len() == old(message).recipients@.len(),
        forall|i: int| 0 <= i < old(message).recipients@.len() ==> #[trigger] final(message).recipients@[i] == if old(
            message,
        ).recipients@[i].status.pending() {
            (QueueRecipient {
                retry: RetrySchedule { attempts: old(message).recipients@[i].retry.attempts, due: now },
                ..old(message).recipients@[i]
            })
        } else {
            old(message).recipients@[i]
        },
{
    let ghost before = message.recipients@;
    let mut i: usize = 0;
    while i < message.recipients.len()
        invariant
            i <= message.recipients@.len(),
            message.recipients@.len() == before.len(),
            message.created == old(message).created,
            message.blob_hash == old(message).blob_hash,
            message.size == old(message).size,
            message.return_path == old(message).return_path,
            before == old(message).recipients@,
            forall|j: int| i <= j < before.len() ==> #[trigger] message.recipients@[j] == before[j],
            forall|j: int| 0 <= j < i ==> #[trigger] message.recipients@[j] == if before[j].status.pending() {
                (QueueRecipient { retry: RetrySchedule { attempts: before[j].retry.attempts, due: now }, ..before[j] })
            } else {
                before[j]
            },
        decreases before.len() - i,
    {
        if message.recipients[i].status.is_pending() {
            let mut r = message.recipients.remove(i);
            r.retry.due = now;
            message.recipients.insert(i, r);
        }
        i += 1;
    }
}

} // verus!
