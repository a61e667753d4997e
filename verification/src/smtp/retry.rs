use vstd::prelude::*;
use vstd::arithmetic::power2::{lemma2_to64, lemma_pow2_strictly_increases, lemma_pow2_unfold, pow2};
use crate::smtp::queue_model::{expired, Expiry, RetrySchedule};

verus! {

/// The wait before the first retry, in seconds.
pub const BASE_BACKOFF: u64 = 300;

/// The longest wait between two attempts, in seconds.
pub const MAX_BACKOFF: u64 = 7200;

/// Beyond this many attempts the wait no longer doubles.
pub const MAX_SHIFT: u32 = 16;

/// What to do with a recipient after a deferral.
#[derive(Debug, Clone, Copy, PartialEq, Eq)]
pub enum RetryDecision {
    Retry(RetrySchedule),
    Bounce,
}

impl RetryDecision {
    pub fn is_bounce(&self) -> (bounce: bool)
        ensures
            bounce == (*self is Bounce),
    {
        match self {
            RetryDecision::Bounce => true,
            RetryDecision::Retry(_) => false,
        }
    }

    pub fn schedule(&self) -> (schedule: Option<RetrySchedule>)
        ensures
            schedule == match *self {
                RetryDecision::Retry(s) => Some(s),
                RetryDecision::Bounce => None,
            },
    {
        match self {
            RetryDecision::Retry(schedule) => Some(*schedule),
            RetryDecision::Bounce => None,
        }
    }
}

/// The wait after `attempts` failed attempts: the base wait doubled once per
/// attempt (at most sixteen times), capped at the longest wait.
pub open spec fn spec_backoff(attempts: u32) -> int {
    let shift: nat = if attempts < MAX_SHIFT { attempts as nat } else { MAX_SHIFT as nat };
    let scaled = BASE_BACKOFF * pow2(shift);
    if scaled < MAX_BACKOFF { scaled } else { MAX_BACKOFF as int }
}

/// The wait, in seconds, after `attempts` failed attempts.
pub fn backoff(attempts: u32) -> (wait: u64)
    ensures
        wait == spec_backoff(attempts),
        BASE_BACKOFF <= wait <= MAX_BACKOFF,
{
    let shift: u32 = if attempts < MAX_SHIFT { attempts } else { MAX_SHIFT };
    proof {
        lemma2_to64();
        if shift < 16 {
            lemma_pow2_strictly_increases(shift as nat, 16);
        }
        assert(pow2(shift as nat) <= 65536);
        vstd::bits::lemma_u64_shl_is_mul(1, shift as u64);
    }
    let factor: u64 = 1u64 << (shift as u64);
    let scaled = BASE_BACKOFF * factor;
    if scaled < MAX_BACKOFF {
        scaled
    } else {
        MAX_BACKOFF
    }
}

/// The schedule after a deferral: the attempt count grows by one (saturating);
/// if the expiry has lapsed with that count the recipient bounces, else it is
/// retried after the backoff of the attempts made before (the instant
/// saturating at the largest time).
pub open spec fn spec_next_after_deferral(retry: RetrySchedule, expiry: Expiry, now: u64) -> RetryDecision {
    let attempts: u32 = if retry.attempts + 1 > u32::MAX { u32::MAX } else { (retry.attempts + 1) as u32 };
    if expired(expiry, attempts, now) {
        RetryDecision::Bounce
    } else {
        let due: u64 = if now + spec_backoff(retry.attempts) > u64::MAX {
            u64::MAX
        } else {
            (now + spec_backoff(retry.attempts)) as u64
        };
        RetryDecision::Retry(RetrySchedule { attempts, due })
    }
}

pub fn next_after_deferral(retry: &RetrySchedule, expiry: &Expiry, now: u64) -> (decision: RetryDecision)
    ensures
        decision == spec_next_after_deferral(*retry, *expiry, now),
{
    let attempts = retry.attempts.saturating_add(1);
    if expiry.is_expired(attempts, now) {
        return RetryDecision::Bounce;
    }
    let due = now.saturating_add(backoff(retry.attempts));
    RetryDecision::Retry(RetrySchedule { attempts, due })
}

/// An attempt cap of `n` grants exactly `n` tries: starting from a fresh
/// schedule, the deferrals after the first `n - 1` tries reschedule with one
/// more attempt each, and the one after the `n`-th bounces.
pub proof fn lemma_attempt_cap_grants_its_count(limit: u32, attempts: u32, due: u64, now: u64)
    requires
        limit > 0,
        attempts < limit,
    ensures
        attempts + 1 < limit ==> (spec_next_after_deferral(
            (RetrySchedule { attempts, due }),
            Expiry::Attempts(limit),
            now,
        ) matches RetryDecision::Retry(s) && s.attempts == attempts + 1),
        attempts + 1 == limit ==> spec_next_after_deferral(
            (RetrySchedule { attempts, due }),
            Expiry::Attempts(limit),
            now,
        ) is Bounce,
{
}

/// A deferral never moves a retry earlier than now, and the wait never
/// exceeds the longest backoff.
pub proof fn lemma_retry_is_later(retry: RetrySchedule, expiry: Expiry, now: u64)
    ensures
        (spec_next_after_deferral(retry, expiry, now) matches RetryDecision::Retry(s) ==> now <= s.due
            && s.due <= now + MAX_BACKOFF),
        BASE_BACKOFF <= spec_backoff(retry.attempts) <= MAX_BACKOFF,
{
    lemma2_to64();
    let shift: nat = if retry.attempts < MAX_SHIFT { retry.attempts as nat } else { MAX_SHIFT as nat };
    if shift > 0 {
        lemma_pow2_strictly_increases(0, shift);
    }
}

/// The backoff doubles: the first retry waits the base wait, each further
/// failed attempt doubles the wait until it reaches the longest wait, and from
/// the sixteenth attempt on the wait is the longest wait.
pub proof fn lemma_backoff_doubles(attempts: u32)
    ensures
        spec_backoff(0) == BASE_BACKOFF,
        attempts < MAX_SHIFT ==> spec_backoff((attempts + 1) as u32) == if 2 * spec_backoff(attempts)
            < MAX_BACKOFF {
            2 * spec_backoff(attempts)
        } else {
            MAX_BACKOFF as int
        },
        attempts >= MAX_SHIFT ==> spec_backoff(attempts) == MAX_BACKOFF,
{
    lemma2_to64();
    if attempts < MAX_SHIFT {
        let next: u32 = (attempts + 1) as u32;
        lemma_pow2_unfold(next as nat);
        assert(pow2(next as nat) == 2 * pow2(attempts as nat));
        assert(BASE_BACKOFF * pow2(next as nat) == 2 * (BASE_BACKOFF * pow2(attempts as nat)));
    }
}

} // verus!
