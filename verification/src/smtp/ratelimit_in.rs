use vstd::prelude::*;
use vstd::string::StringSliceAdditionalSpecFns;

verus! {

pub const TOO_MANY_CONNECTIONS: &'static str = "421 4.7.0 Too many connections, try again later\r\n";
pub const TOO_MANY_MESSAGES: &'static str = "452 4.7.0 Too many messages, try again later\r\n";

pub const DEFAULT_MAX_CONNECTIONS: u32 = 30;
pub const DEFAULT_MAX_MESSAGES: u32 = 200;

/// The default counting window, in seconds.
pub const DEFAULT_WINDOW: u64 = 60;

/// How many connections and messages one client address may open within a
/// window (in seconds); a zero limit or a zero window disables a check.
#[derive(Clone, Copy, Debug, PartialEq, Eq)]
pub struct RateLimits {
    pub max_connections: u32,
    pub max_messages: u32,
    pub window: u64,
}

impl Default for RateLimits {
    fn default() -> (limits: Self)
        ensures
            limits.max_connections == DEFAULT_MAX_CONNECTIONS,
            limits.max_messages == DEFAULT_MAX_MESSAGES,
            limits.window == DEFAULT_WINDOW,
    {
        RateLimits { max_connections: DEFAULT_MAX_CONNECTIONS, max_messages: DEFAULT_MAX_MESSAGES, window: DEFAULT_WINDOW }
    }
}

#[derive(Clone, Copy, Debug, PartialEq, Eq)]
pub enum RateDecision {
    Allow,
    Deny(&'static [u8]),
}

impl RateDecision {
    pub fn is_allowed(&self) -> (allowed: bool)
        ensures
            allowed == (*self is Allow),
    {
        match self {
            RateDecision::Allow => true,
            RateDecision::Deny(_) => false,
        }
    }
}

/// What is being counted.
#[derive(Clone, Copy, Debug, PartialEq, Eq)]
pub enum RateKind {
    Connection,
    Message,
}

/// The limit that applies to a kind of event.
pub open spec fn limit_of(limits: RateLimits, kind: RateKind) -> u32 {
    match kind {
        RateKind::Connection => limits.max_connections,
        RateKind::Message => limits.max_messages,
    }
}

/// Decides on one more event of a kind from a client that already has
/// `current` of them in the window: refused once the count has reached the
/// limit; when admitted, the count to store is returned (none when the check
/// is disabled).
pub fn hit(limits: &RateLimits, kind: RateKind, current: u32) -> (r: (RateDecision, Option<u32>))
    ensures
        limit_of(*limits, kind) == 0 || limits.window == 0 ==> r == (RateDecision::Allow, None::<u32>),
        limit_of(*limits, kind) != 0 && limits.window != 0 && current >= limit_of(*limits, kind) ==> (r.0
            matches RateDecision::Deny(reply) && r.1 is None && reply@ == match kind {
            RateKind::Connection => TOO_MANY_CONNECTIONS.spec_bytes(),
            RateKind::Message => TOO_MANY_MESSAGES.spec_bytes(),
        }),
        limit_of(*limits, kind) != 0 && limits.window != 0 && current < limit_of(*limits, kind) ==> r == (
        RateDecision::Allow, Some((current + 1) as u32)),
{
    let (limit, reply) = match kind {
        RateKind::Connection => (limits.max_connections, TOO_MANY_CONNECTIONS.as_bytes()),
        RateKind::Message => (limits.max_messages, TOO_MANY_MESSAGES.as_bytes()),
    };
    if limit == 0 || limits.window == 0 {
        return (RateDecision::Allow, None);
    }
    if current >= limit {
        return (RateDecision::Deny(reply), None);
    }
    (RateDecision::Allow, Some(current + 1))
}

/// The eight big-endian bytes of a number.
pub open spec fn be_bytes(x: u64) -> Seq<u8> {
    seq![
        (x >> 56) as u8,
        (x >> 48) as u8,
        (x >> 40) as u8,
        (x >> 32) as u8,
        (x >> 24) as u8,
        (x >> 16) as u8,
        (x >> 8) as u8,
        x as u8,
    ]
}

pub fn push_be_bytes(out: &mut Vec<u8>, x: u64)
    ensures
        final(out)@ == old(out)@ + be_bytes(x),
{
    out.push((x >> 56) as u8);
    out.push((x >> 48) as u8);
    out.push((x >> 40) as u8);
    out.push((x >> 32) as u8);
    out.push((x >> 24) as u8);
    out.push((x >> 16) as u8);
    out.push((x >> 8) as u8);
    out.push(x as u8);
    assert(final(out)@ =~= old(out)@ + be_bytes(x));
}

/// The window a time falls in: the time divided by the window's length (a
/// zero length counts as one second).
pub open spec fn bucket_of(now: u64, window: u64) -> u64 {
    if window == 0 { now } else { (now / window) as u64 }
}

/// The counter key of a kind of event from a client address (4 or 16
/// octets) in the window of `now`: `rl:`, the kind's tag, the address
/// family, the octets and the window number.
pub open spec fn spec_window_key(kind: RateKind, ip: Seq<u8>, now: u64, window: u64) -> Seq<u8> {
    seq![114u8, 108u8, 58u8] + seq![match kind {
        RateKind::Connection => 99u8,
        RateKind::Message => 109u8,
    }] + seq![if ip.len() == 4 { 4u8 } else { 6u8 }] + ip + be_bytes(bucket_of(now, window))
}

pub fn window_key(kind: RateKind, ip: &[u8], now: u64, window: u64) -> (key: Vec<u8>)
    ensures
        key@ == spec_window_key(kind, ip@, now, window),
{
    let mut key: Vec<u8> = Vec::new();
    key.push(114u8);
    key.push(108u8);
    key.push(58u8);
    key.push(
        match kind {
            RateKind::Connection => 99u8,
            RateKind::Message => 109u8,
        },
    );
    key.push(if ip.len() == 4 { 4u8 } else { 6u8 });
    let mut i: usize = 0;
    let ghost head = key@;
    while i < ip.len()
        invariant
            i <= ip@.len(),
            key@ == head + ip@.take(i as int),
        decreases ip@.len() - i,
    {
        key.push(ip[i]);
        i += 1;
        assert(key@ =~= head + ip@.take(i as int));
    }
    assert(ip@.take(i as int) =~= ip@);
    let bucket = if window == 0 { now } else { now / window };
    push_be_bytes(&mut key, bucket);
    assert(key@ =~= spec_window_key(kind, ip@, now, window));
    key
}

/// The count an admitted event leaves stored, when the check is on.
pub open spec fn stored_after(limits: RateLimits, kind: RateKind, current: u32) -> u32 {
    let limit = limit_of(limits, kind);
    if limit == 0 || limits.window == 0 || current >= limit {
        current
    } else {
        (current + 1) as u32
    }
}

/// The number of events admitted out of `n` in a row within one window,
/// starting from a stored count.
pub open spec fn admitted(limits: RateLimits, kind: RateKind, current: u32, n: nat) -> nat
    decreases n,
{
    if n == 0 {
        0
    } else {
        let limit = limit_of(limits, kind);
        let here: nat = if limit == 0 || limits.window == 0 || current < limit { 1 } else { 0 };
        here + admitted(limits, kind, stored_after(limits, kind, current), (n - 1) as nat)
    }
}

/// Within one window an enabled check admits at most the limit, however many
/// events arrive: from a stored count `c`, at most `limit - c` more.
pub proof fn lemma_admitted_within_limit(limits: RateLimits, kind: RateKind, current: u32, n: nat)
    requires
        limit_of(limits, kind) != 0,
        limits.window != 0,
        current <= limit_of(limits, kind),
    ensures
        admitted(limits, kind, current, n) <= limit_of(limits, kind) - current,
    decreases n,
{
    if n > 0 {
        lemma_admitted_within_limit(limits, kind, stored_after(limits, kind, current), (n - 1) as nat);
    }
}

} // verus!
