use vstd::prelude::*;
use vstd::string::StringSliceAdditionalSpecFns;
use crate::smtp::queue_model::{Expiry, NotifySchedule, QueueRecipient, QueuedMessage, RecipientStatus, RetrySchedule};
use crate::text::chars_of;

verus! {

pub const SECONDS_PER_DAY: u64 = 86_400;

/// How many attempts a relayed or forwarded copy gets.
pub const RELAY_MAX_ATTEMPTS: u32 = 25;

/// The reason a recipient over quota is bounced with.
pub const OVER_QUOTA_REASON: &'static str = "552 5.2.2 Mailbox full";

/// The name a report is signed with when no hostname is configured.
pub const REPORTING_MTA: &'static str = "irixmail";

/// The day an instant falls on, counted from the epoch.
pub fn day_number(seconds_since_epoch: u64) -> (day: u32)
    ensures
        day == (seconds_since_epoch / SECONDS_PER_DAY) as u32,
{
    (seconds_since_epoch / SECONDS_PER_DAY) as u32
}

/// The addresses paired with an over-quota delivery (pairs taken up to the
/// shorter of the two lists), in order.
pub open spec fn over_quota_addresses(addresses: Seq<Seq<char>>, over_quota: Seq<bool>) -> Seq<Seq<char>>
    decreases addresses.len(),
{
    let n = if addresses.len() < over_quota.len() {
        addresses.len()
    } else {
        over_quota.len()
    };
    if n == 0 {
        Seq::empty()
    } else {
        let rest = over_quota_addresses(addresses.take(n - 1), over_quota.take(n - 1));
        if over_quota[n - 1] {
            rest.push(addresses[n - 1])
        } else {
            rest
        }
    }
}

/// A recipient bounced at `now` for being over quota.
pub open spec fn bounced_over_quota(r: QueueRecipient, address: Seq<char>, now: u64) -> bool {
    &&& r.address@ == address
    &&& r.status matches RecipientStatus::Bounced(t) && t@ == OVER_QUOTA_REASON@
    &&& r.retry == (RetrySchedule { attempts: 0, due: now })
    &&& r.notify == (NotifySchedule { sent: 0, due: now })
    &&& r.expiry == Expiry::Attempts(1)
}

proof fn lemma_over_quota_step(addresses: Seq<Seq<char>>, over_quota: Seq<bool>, i: int)
    requires
        0 <= i < addresses.len(),
        i < over_quota.len(),
    ensures
        over_quota_addresses(addresses.take(i + 1), over_quota.take(i + 1)) == if over_quota[i] {
            over_quota_addresses(addresses.take(i), over_quota.take(i)).push(addresses[i])
        } else {
            over_quota_addresses(addresses.take(i), over_quota.take(i))
        },
{
    assert(addresses.take(i + 1).take(i) =~= addresses.take(i));
    assert(over_quota.take(i + 1).take(i) =~= over_quota.take(i));
}

proof fn lemma_over_quota_trim(addresses: Seq<Seq<char>>, over_quota: Seq<bool>)
    ensures
        ({
            let n = if addresses.len() < over_quota.len() {
                addresses.len()
            } else {
                over_quota.len()
            };
            over_quota_addresses(addresses.take(n as int), over_quota.take(n as int)) == over_quota_addresses(addresses, over_quota)
        }),
{
    let n = if addresses.len() < over_quota.len() {
        addresses.len()
    } else {
        over_quota.len()
    };
    if n > 0 {
        assert(addresses.take(n as int).take(n - 1) =~= addresses.take(n - 1));
        assert(over_quota.take(n as int).take(n - 1) =~= over_quota.take(n - 1));
    }
}

/// The report on the recipients of an inbound message that were over quota:
/// none for a null sender or when nobody was; otherwise a record of the
/// message, dated `now`, whose recipients are those addresses, bounced.
pub fn over_quota_report(
    addresses: &[String],
    over_quota: &[bool],
    mail_from: &str,
    raw_len: u64,
    now: u64,
) -> (report: Option<QueuedMessage>)
    ensures
        ({
            let picked = over_quota_addresses(addresses@.map_values(|s: String| s@), over_quota@);
            if mail_from@.len() == 0 || picked.len() == 0 {
                report is None
            } else {
                report matches Some(m) && {
                    &&& m.created == now
                    &&& m.blob_hash@.len() == 0
                    &&& m.size == raw_len
                    &&& m.return_path@ == mail_from@
                    &&& m.recipients@.len() == picked.len()
                    &&& forall|i: int| 0 <= i < picked.len() ==> bounced_over_quota(#[trigger] m.recipients@[i], picked[i], now)
                }
            }
        }),
{
    let ghost views = addresses@.map_values(|s: String| s@);
    if chars_of(mail_from).len() == 0 {
        return None;
    }
    let n: usize = if addresses.len() < over_quota.len() {
        addresses.len()
    } else {
        over_quota.len()
    };
    let mut bounced: Vec<QueueRecipient> = Vec::new();
    let mut i: usize = 0;
    while i < n
        invariant
            i <= n <= addresses@.len(),
            n <= over_quota@.len(),
            views == addresses@.map_values(|s: String| s@),
            n == addresses@.len() || n == over_quota@.len(),
            bounced@.len() == over_quota_addresses(views.take(i as int), over_quota@.take(i as int)).len(),
            forall|j: int| 0 <= j < bounced@.len() ==> bounced_over_quota(#[trigger] bounced@[j],
                over_quota_addresses(views.take(i as int), over_quota@.take(i as int))[j], now),
        decreases n - i,
    {
        proof {
            lemma_over_quota_step(views, over_quota@, i as int);
        }
        if over_quota[i] {
            let address = addresses[i].clone();
            let mut rcpt = QueueRecipient::new(address, now, Expiry::Attempts(1));
            rcpt.status = RecipientStatus::Bounced(String::from_str(OVER_QUOTA_REASON));
            bounced.push(rcpt);
        }
        i += 1;
    }
    proof {
        lemma_over_quota_trim(views, over_quota@);
    }
    if bounced.len() == 0 {
        return None;
    }
    let mut return_path = String::new();
    crate::text::push_str(&mut return_path, mail_from);
    Some(QueuedMessage { created: now, blob_hash: Vec::new(), size: raw_len, return_path, recipients: bounced })
}

} // verus!
