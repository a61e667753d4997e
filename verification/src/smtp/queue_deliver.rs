use vstd::prelude::*;
use crate::sieve::instruction::AddressPart;
use crate::sieve::message::{address_part, spec_address_part};
use crate::smtp::deliver_out::DeliveryAttempt;
use crate::smtp::queue_local::LocalRoute;
use crate::smtp::queue_model::{QueueRecipient, QueuedMessage, RecipientStatus, RetrySchedule};
use crate::smtp::ratelimit_out::{decide, spec_decide, window_end_of, OutboundDecision, OutboundLimits, OutboundRecord};
use crate::smtp::retry::{next_after_deferral, spec_next_after_deferral, RetryDecision};
use crate::text::{chars_of, copy_bytes, push_str};

verus! {

/// The name a report is signed with when no hostname is configured.
pub const REPORTING_MTA: &'static str = "irixmail";

/// The deferral reason of a recipient held back by the outbound rate.
pub const RATE_LIMITED: &'static str = "outbound rate limited";

/// The bounce reason of a recipient whose message body is gone.
pub const BODY_LOST: &'static str = "the message body is no longer available";

/// What follows the last `@` of an address; empty when there is none.
pub fn domain_of(address: &str) -> (domain: String)
    ensures
        domain@ == spec_address_part(address@, AddressPart::Domain),
{
    address_part(address, AddressPart::Domain)
}

/// The address and reason of a bounced recipient, to be logged.
pub fn rejection_note(rcpt: &QueueRecipient) -> (note: Option<(&str, &str)>)
    ensures
        match rcpt.status {
            RecipientStatus::Bounced(reason) => note matches Some((a, r)) && a@ == rcpt.address@ && r@ == reason@,
            _ => note is None,
        },
{
    match &rcpt.status {
        RecipientStatus::Bounced(reason) => Some((rcpt.address.as_str(), reason.as_str())),
        _ => None,
    }
}

/// What a delivery attempt does to a recipient: delivered and bounced settle
/// it; a deferral retries it on the backoff schedule, or bounces it once its
/// expiry has lapsed.
pub open spec fn attempt_applied(before: QueueRecipient, after: QueueRecipient, attempt: DeliveryAttempt, now: u64) -> bool {
    &&& after.address == before.address
    &&& after.notify == before.notify
    &&& after.expiry == before.expiry
    &&& match attempt {
        DeliveryAttempt::Delivered => after.status == RecipientStatus::Delivered && after.retry == before.retry,
        DeliveryAttempt::Bounced(reason) => after.status == RecipientStatus::Bounced(reason) && after.retry == before.retry,
        DeliveryAttempt::Deferred(reason) => match spec_next_after_deferral(before.retry, before.expiry, now) {
            RetryDecision::Retry(schedule) => after.retry == schedule && after.status == RecipientStatus::Deferred(reason),
            RetryDecision::Bounce => after.retry == before.retry && after.status == RecipientStatus::Bounced(reason),
        },
    }
}

pub fn apply_attempt(rcpt: &mut QueueRecipient, attempt: DeliveryAttempt, now: u64)
    ensures
        attempt_applied(*old(rcpt), *final(rcpt), attempt, now),
{
    match attempt {
        DeliveryAttempt::Delivered => rcpt.status = RecipientStatus::Delivered,
        DeliveryAttempt::Bounced(reason) => rcpt.status = RecipientStatus::Bounced(reason),
        DeliveryAttempt::Deferred(reason) => match next_after_deferral(&rcpt.retry, &rcpt.expiry, now) {
            RetryDecision::Retry(schedule) => {
                rcpt.retry = schedule;
                rcpt.status = RecipientStatus::Deferred(reason);
            },
            RetryDecision::Bounce => rcpt.status = RecipientStatus::Bounced(reason),
        },
    }
}

/// An exact copy of a status.
fn copy_status(status: &RecipientStatus) -> (copy: RecipientStatus)
    ensures
        copy == *status,
{
    match status {
        RecipientStatus::Scheduled => RecipientStatus::Scheduled,
        RecipientStatus::Delivered => RecipientStatus::Delivered,
        RecipientStatus::Deferred(reason) => RecipientStatus::Deferred(reason.clone()),
        RecipientStatus::Bounced(reason) => RecipientStatus::Bounced(reason.clone()),
    }
}

/// An exact copy of a recipient.
pub fn copy_recipient(rcpt: &QueueRecipient) -> (copy: QueueRecipient)
    ensures
        copy == *rcpt,
{
    QueueRecipient {
        address: rcpt.address.clone(),
        status: copy_status(&rcpt.status),
        retry: rcpt.retry,
        notify: rcpt.notify,
        expiry: rcpt.expiry,
    }
}

/// Which recipients are pending, in order.
pub fn pending_flags(message: &QueuedMessage) -> (flags: Vec<bool>)
    ensures
        flags@.len() == message.recipients@.len(),
        forall|i: int| 0 <= i < flags@.len() ==> flags@[i] == (#[trigger] message.recipients@[i]).status.pending(),
{
    let mut flags: Vec<bool> = Vec::new();
    let mut i: usize = 0;
    while i < message.recipients.len()
        invariant
            i <= message.recipients@.len(),
            flags@.len() == i,
            forall|j: int| 0 <= j < i ==> flags@[j] == (#[trigger] message.recipients@[j]).status.pending(),
        decreases message.recipients@.len() - i,
    {
        flags.push(message.recipients[i].status.is_pending());
        i += 1;
    }
    flags
}

/// `after` is `before` with every recipient due at `now` held back until
/// `until` as rate limited, its attempts unchanged, and nothing else changed.
pub open spec fn held_for_rate(before: QueuedMessage, after: QueuedMessage, now: u64, until: u64) -> bool {
    &&& after.created == before.created
    &&& after.blob_hash == before.blob_hash
    &&& after.size == before.size
    &&& after.return_path == before.return_path
    &&& after.recipients@.len() == before.recipients@.len()
    &&& forall|i: int| 0 <= i < before.recipients@.len() ==> {
        let b = before.recipients@[i];
        let a = #[trigger] after.recipients@[i];
        if b.due(now) {
            &&& a.address == b.address && a.notify == b.notify && a.expiry == b.expiry
            &&& a.retry == (RetrySchedule { attempts: b.retry.attempts, due: until })
            &&& a.status matches RecipientStatus::Deferred(t) && t@ == RATE_LIMITED@
        } else {
            a == b
        }
    }
}

/// Holds the due recipients back until the rate window ends, without using up
/// an attempt.
pub fn hold_for_rate(message: &mut QueuedMessage, now: u64, until: u64)
    ensures
        held_for_rate(*old(message), *final(message), now, until),
        final(message).created == old(message).created,
        final(message).blob_hash == old(message).blob_hash,
        final(message).size == old(message).size,
        final(message).return_path == old(message).return_path,
        final(message).recipients@.len() == old(message).recipients@.len(),
        forall|i: int| 0 <= i < old(message).recipients@.len() ==> {
            let b = old(message).recipients@[i];
            let a = #[trigger] final(message).recipients@[i];
            if b.due(now) {
                &&& a.address == b.address && a.notify == b.notify && a.expiry == b.expiry
                &&& a.retry == (RetrySchedule { attempts: b.retry.attempts, due: until })
                &&& a.status matches RecipientStatus::Deferred(t) && t@ == RATE_LIMITED@
            } else {
                a == b
            }
        },
{
    let ghost before = message.recipients@;
    let mut i: usize = 0;
    while i < message.recipients.len()
        invariant
            i <= message.recipients@.len(),
            message.recipients@.len() == before.len(),
            before == old(message).recipients@,
            message.created == old(message).created,
            message.blob_hash == old(message).blob_hash,
            message.size == old(message).size,
            message.return_path == old(message).return_path,
            forall|j: int| i <= j < before.len() ==> #[trigger] message.recipients@[j] == before[j],
            forall|j: int| 0 <= j < i ==> {
                let b = before[j];
                let a = #[trigger] message.recipients@[j];
                if b.due(now) {
                    &&& a.address == b.address && a.notify == b.notify && a.expiry == b.expiry
                    &&& a.retry == (RetrySchedule { attempts: b.retry.attempts, due: until })
                    &&& a.status matches RecipientStatus::Deferred(t) && t@ == RATE_LIMITED@
                } else {
                    a == b
                }
            },
        decreases before.len() - i,
    {
        if message.recipients[i].is_due(now) {
            let mut r = message.recipients.remove(i);
            r.retry.due = until;
            r.status = RecipientStatus::Deferred(String::from_str(RATE_LIMITED));
            message.recipients.insert(i, r);
        }
        i += 1;
    }
}

/// What the rate check at the start of a delivery pass decides.
#[derive(Debug, PartialEq, Eq)]
pub enum RateGate {
    /// Deliver; the counts to store for the sender and its domain.
    Proceed(OutboundRecord),
    /// Over the allowance: the due recipients wait out the window, and the
    /// message is stored back without a delivery.
    Held,
}

/// The rate check of a delivery pass for a message whose sender has sent
/// `sender_count` and whose sender domain has sent `domain_count` in the
/// current window. With no recipient due nothing is checked. Otherwise the
/// outbound allowance decides: admitted, the pass proceeds with the counts to
/// store; refused, every due recipient is deferred as rate limited until the
/// window ends, later than `now`, with no attempt used.
pub fn rate_gate(message: &mut QueuedMessage, limits: &OutboundLimits, sender_count: u32, domain_count: u32, now: u64) -> (gate: RateGate)
    requires
        window_end_of(*limits, now) <= u64::MAX,
    ensures
        window_end_of(*limits, now) > now,
        !old(message).has_due(now) ==> gate == RateGate::Proceed(OutboundRecord { sender: None, domain: None })
            && *final(message) == *old(message),
        old(message).has_due(now) ==> match spec_decide(*limits, sender_count, domain_count) {
            (OutboundDecision::Allow, record) => gate == RateGate::Proceed(record) && *final(message) == *old(message),
            (OutboundDecision::Deny(_), _) => gate == RateGate::Held && held_for_rate(
                *old(message),
                *final(message),
                now,
                window_end_of(*limits, now) as u64,
            ),
        },
{
    let until = limits.window_end(now);
    if !message.has_due_recipient(now) {
        return RateGate::Proceed(OutboundRecord { sender: None, domain: None });
    }
    let (decision, record) = decide(limits, sender_count, domain_count);
    match decision {
        OutboundDecision::Allow => RateGate::Proceed(record),
        OutboundDecision::Deny(_) => {
            hold_for_rate(message, now, until);
            RateGate::Held
        },
    }
}

/// Bounces every pending recipient of a message whose body is gone.
pub fn bounce_lost_body(message: &mut QueuedMessage)
    ensures
        final(message).created == old(message).created,
        final(message).blob_hash == old(message).blob_hash,
        final(message).size == old(message).size,
        final(message).return_path == old(message).return_path,
        final(message).recipients@.len() == old(message).recipients@.len(),
        forall|i: int| 0 <= i < old(message).recipients@.len() ==> {
            let b = old(message).recipients@[i];
            let a = #[trigger] final(message).recipients@[i];
            if b.status.pending() {
                &&& a.address == b.address && a.notify == b.notify && a.expiry == b.expiry && a.retry == b.retry
                &&& a.status matches RecipientStatus::Bounced(t) && t@ == BODY_LOST@
            } else {
                a == b
            }
        },
{
    let ghost before = message.recipients@;
    let mut i: usize = 0;
    while i < message.recipients.len()
        invariant
            i <= message.recipients@.len(),
            message.recipients@.len() == before.len(),
            before == old(message).recipients@,
            message.created == old(message).created,
            message.blob_hash == old(message).blob_hash,
            message.size == old(message).size,
            message.return_path == old(message).return_path,
            forall|j: int| i <= j < before.len() ==> #[trigger] message.recipients@[j] == before[j],
            forall|j: int| 0 <= j < i ==> {
                let b = before[j];
                let a = #[trigger] message.recipients@[j];
                if b.status.pending() {
                    &&& a.address == b.address && a.notify == b.notify && a.expiry == b.expiry && a.retry == b.retry
                    &&& a.status matches RecipientStatus::Bounced(t) && t@ == BODY_LOST@
                } else {
                    a == b
                }
            },
        decreases before.len() - i,
    {
        if message.recipients[i].status.is_pending() {
            let mut r = message.recipients.remove(i);
            r.status = RecipientStatus::Bounced(String::from_str(BODY_LOST));
            message.recipients.insert(i, r);
        }
        i += 1;
    }
}

/// The recipients that were pending before this pass and are bounced now,
/// in order (pairs taken up to the shorter list).
pub open spec fn newly_bounced(recipients: Seq<QueueRecipient>, pending_before: Seq<bool>) -> Seq<QueueRecipient>
    decreases recipients.len(),
{
    let n = if recipients.len() < pending_before.len() {
        recipients.len()
    } else {
        pending_before.len()
    };
    if n == 0 {
        Seq::empty()
    } else {
        let rest = newly_bounced(recipients.take(n - 1), pending_before.take(n - 1));
        if pending_before[n - 1] && recipients[n - 1].status is Bounced {
            rest.push(recipients[n - 1])
        } else {
            rest
        }
    }
}

proof fn lemma_newly_bounced_step(recipients: Seq<QueueRecipient>, pending_before: Seq<bool>, i: int)
    requires
        0 <= i < recipients.len(),
        i < pending_before.len(),
    ensures
        newly_bounced(recipients.take(i + 1), pending_before.take(i + 1)) == if pending_before[i]
            && recipients[i].status is Bounced {
            newly_bounced(recipients.take(i), pending_before.take(i)).push(recipients[i])
        } else {
            newly_bounced(recipients.take(i), pending_before.take(i))
        },
{
    assert(recipients.take(i + 1).take(i) =~= recipients.take(i));
    assert(pending_before.take(i + 1).take(i) =~= pending_before.take(i));
}

proof fn lemma_newly_bounced_trim(recipients: Seq<QueueRecipient>, pending_before: Seq<bool>)
    ensures
        ({
            let n = if recipients.len() < pending_before.len() {
                recipients.len()
            } else {
                pending_before.len()
            };
            newly_bounced(recipients.take(n as int), pending_before.take(n as int)) == newly_bounced(recipients, pending_before)
        }),
{
    let n = if recipients.len() < pending_before.len() {
        recipients.len()
    } else {
        pending_before.len()
    };
    if n > 0 {
        assert(recipients.take(n as int).take(n - 1) =~= recipients.take(n - 1));
        assert(pending_before.take(n as int).take(n - 1) =~= pending_before.take(n - 1));
    }
}

/// The report to raise after a pass: none for a null sender or when no
/// recipient newly bounced; otherwise the message with just those
/// recipients.
pub fn bounce_report(message: &QueuedMessage, pending_before: &[bool]) -> (report: Option<QueuedMessage>)
    ensures
        ({
            let bounced = newly_bounced(message.recipients@, pending_before@);
            if message.return_path@.len() == 0 || bounced.len() == 0 {
                report is None
            } else {
                report matches Some(r) && r.created == message.created && r.blob_hash@ == message.blob_hash@ && r.size
                    == message.size && r.return_path == message.return_path && r.recipients@ == bounced
            }
        }),
{
    if chars_of(message.return_path.as_str()).len() == 0 {
        return None;
    }
    let n: usize = if message.recipients.len() < pending_before.len() {
        message.recipients.len()
    } else {
        pending_before.len()
    };
    let ghost all = message.recipients@;
    let mut picked: Vec<QueueRecipient> = Vec::new();
    let mut i: usize = 0;
    while i < n
        invariant
            i <= n <= all.len(),
            n <= pending_before@.len(),
            all == message.recipients@,
            n == all.len() || n == pending_before@.len(),
            picked@ == newly_bounced(all.take(i as int), pending_before@.take(i as int)),
        decreases n - i,
    {
        proof {
            lemma_newly_bounced_step(all, pending_before@, i as int);
        }
        let r = &message.recipients[i];
        if pending_before[i] {
            match &r.status {
                RecipientStatus::Bounced(_) => picked.push(copy_recipient(r)),
                _ => {},
            }
        }
        i += 1;
    }
    proof {
        lemma_newly_bounced_trim(all, pending_before@);
    }
    if picked.len() == 0 {
        return None;
    }
    Some(QueuedMessage {
        created: message.created,
        blob_hash: copy_bytes(message.blob_hash.as_slice()),
        size: message.size,
        return_path: message.return_path.clone(),
        recipients: picked,
    })
}

/// The bounce reason for a hosted recipient nobody here answers to.
pub open spec fn unknown_user_text(target: Seq<char>) -> Seq<char> {
    "550 5.1.1 <"@ + target + ">: recipient address rejected: user unknown"@
}

pub fn unknown_user(target: &str) -> (reason: String)
    ensures
        reason@ == unknown_user_text(target@),
{
    let mut s = String::new();
    push_str(&mut s, "550 5.1.1 <");
    push_str(&mut s, target);
    push_str(&mut s, ">: recipient address rejected: user unknown");
    s
}

/// Where local routing leaves a recipient: file it into an account, follow
/// a redirect, settle it with an attempt, or send it out.
pub enum RouteStep {
    Deliver(u64),
    Follow(String),
    Settled(DeliveryAttempt),
    Remote,
}

/// Takes one answer of local routing for the current target.
pub fn route_step(route: LocalRoute, target: &str) -> (step: RouteStep)
    ensures
        match route {
            LocalRoute::Deliver { account_id } => step matches RouteStep::Deliver(id) && id == account_id,
            LocalRoute::Redirect { destination } => step matches RouteStep::Follow(d) && d == destination,
            LocalRoute::Unknown => step matches RouteStep::Settled(DeliveryAttempt::Bounced(t)) && t@ == unknown_user_text(
                target@,
            ),
            LocalRoute::Remote => step is Remote,
        },
{
    match route {
        LocalRoute::Deliver { account_id } => RouteStep::Deliver(account_id),
        LocalRoute::Redirect { destination } => RouteStep::Follow(destination),
        LocalRoute::Unknown => RouteStep::Settled(DeliveryAttempt::Bounced(unknown_user(target))),
        LocalRoute::Remote => RouteStep::Remote,
    }
}

/// Why no exchange took a recipient: the domain accepts no mail, none is
/// reachable, or the lookup failed with the given text.
pub enum Unreachable {
    NoMailAccepted,
    NoExchange,
    LookupFailed(String),
}

/// A domain that accepts no mail bounces; an unreachable one or a failed
/// lookup defers.
pub fn unreachable_attempt(reason: Unreachable) -> (attempt: DeliveryAttempt)
    ensures
        match reason {
            Unreachable::NoMailAccepted => attempt matches DeliveryAttempt::Bounced(t) && t@
                == "the destination domain does not accept mail"@,
            Unreachable::NoExchange => attempt matches DeliveryAttempt::Deferred(t) && t@ == "no reachable mail exchange"@,
            Unreachable::LookupFailed(e) => attempt matches DeliveryAttempt::Deferred(t) && t@ == "MX resolution failed: "@
                + e@,
        },
{
    match reason {
        Unreachable::NoMailAccepted => DeliveryAttempt::Bounced(String::from_str("the destination domain does not accept mail")),
        Unreachable::NoExchange => DeliveryAttempt::Deferred(String::from_str("no reachable mail exchange")),
        Unreachable::LookupFailed(e) => {
            let mut s = String::new();
            push_str(&mut s, "MX resolution failed: ");
            push_str(&mut s, e.as_str());
            DeliveryAttempt::Deferred(s)
        },
    }
}

} // verus!
