use vstd::prelude::*;
use crate::sieve::instruction::AddressPart;
use crate::sieve::message::{address_part, spec_address_part};
use crate::smtp::ratelimit_in::{be_bytes, bucket_of, push_be_bytes};
use crate::text::{lower_chars, to_lower_string};

verus! {

pub const DEFAULT_MAX_PER_SENDER: u32 = 500;
pub const DEFAULT_MAX_PER_DOMAIN: u32 = 2000;

/// The default counting window, in seconds.
pub const DEFAULT_WINDOW: u64 = 3600;

/// The settings object and the fields that hold the outbound allowances.
pub const SETTINGS_SECTION: &'static str = "rateLimits";
pub const SENDER_FIELD: &'static str = "maxMessagesPerSenderPerHour";
pub const DOMAIN_FIELD: &'static str = "maxMessagesPerDomainPerHour";

/// How many messages one sender and one sender domain may send within a
/// window (in seconds); a zero allowance disables that axis.
#[derive(Clone, Copy, Debug, PartialEq, Eq)]
pub struct OutboundLimits {
    pub max_per_sender: u32,
    pub max_per_domain: u32,
    pub window: u64,
}

impl Default for OutboundLimits {
    fn default() -> (limits: Self)
        ensures
            limits == (OutboundLimits {
                max_per_sender: DEFAULT_MAX_PER_SENDER,
                max_per_domain: DEFAULT_MAX_PER_DOMAIN,
                window: DEFAULT_WINDOW,
            }),
    {
        OutboundLimits { max_per_sender: DEFAULT_MAX_PER_SENDER, max_per_domain: DEFAULT_MAX_PER_DOMAIN, window: DEFAULT_WINDOW }
    }
}

/// What `serde_json::from_slice::<serde_json::Value>` and indexing by
/// `outer` then `inner` and `as_u64` make of some bytes: `None` when they are
/// no JSON, else the unsigned number found there, if any.
pub uninterp spec fn json_u64_field(bytes: Seq<u8>, outer: Seq<char>, inner: Seq<char>) -> Option<Option<u64>>;

/// Parses the bytes with `serde_json::from_slice` as a JSON value and reads
/// `value[outer][inner].as_u64()`. The contract names the result: the JSON
/// grammar is the crate's own.
#[verifier::external_body]
pub(crate) fn read_json_u64(bytes: &[u8], outer: &str, inner: &str) -> (r: Option<Option<u64>>)
    ensures
        r == json_u64_field(bytes@, outer@, inner@),
{
    let value = serde_json::from_slice::<serde_json::Value>(bytes).ok()?;
    Some(value[outer][inner].as_u64())
}

/// The allowance a settings field gives, or the default when the settings are
/// no JSON or hold no number there (a number past `u32::MAX` is truncated).
pub open spec fn field_or(bytes: Seq<u8>, inner: Seq<char>, default: u32) -> u32 {
    value_or(json_u64_field(bytes, SETTINGS_SECTION@, inner), default)
}

/// The number a settings field holds (truncated to 32 bits), or the default
/// when the settings are no JSON or hold no number there.
pub open spec fn value_or(field: Option<Option<u64>>, default: u32) -> u32 {
    match field {
        Some(Some(n)) => n as u32,
        _ => default,
    }
}

impl OutboundLimits {
    pub fn is_disabled(&self) -> (disabled: bool)
        ensures
            disabled == (self.window == 0 || (self.max_per_sender == 0 && self.max_per_domain == 0)),
    {
        self.window == 0 || (self.max_per_sender == 0 && self.max_per_domain == 0)
    }

    /// The limits that stored settings ask for: each allowance from the
    /// settings when they give one, else the default; the window is always
    /// the default.
    pub fn from_settings(settings: Option<&[u8]>) -> (limits: Self)
        ensures
            settings is None ==> limits == OutboundLimits::spec_default(),
            settings matches Some(bytes) ==> limits == (OutboundLimits {
                max_per_sender: field_or(bytes@, SENDER_FIELD@, DEFAULT_MAX_PER_SENDER),
                max_per_domain: field_or(bytes@, DOMAIN_FIELD@, DEFAULT_MAX_PER_DOMAIN),
                window: DEFAULT_WINDOW,
            }),
    {
        let bytes = match settings {
            Some(b) => b,
            None => return OutboundLimits::default(),
        };
        let sender = read_json_u64(bytes, SETTINGS_SECTION, SENDER_FIELD);
        let domain = read_json_u64(bytes, SETTINGS_SECTION, DOMAIN_FIELD);
        OutboundLimits::from_fields(sender, domain)
    }

    /// The limits from the settings fields as read (`None`: the settings are
    /// no JSON; `Some(None)`: no number there): each allowance the field
    /// gives, else the default; the window is always the default.
    pub fn from_fields(sender: Option<Option<u64>>, domain: Option<Option<u64>>) -> (limits: Self)
        ensures
            limits == (OutboundLimits {
                max_per_sender: value_or(sender, DEFAULT_MAX_PER_SENDER),
                max_per_domain: value_or(domain, DEFAULT_MAX_PER_DOMAIN),
                window: DEFAULT_WINDOW,
            }),
    {
        let defaults = OutboundLimits::default();
        let max_per_sender = match sender {
            Some(Some(n)) => n as u32,
            _ => defaults.max_per_sender,
        };
        let max_per_domain = match domain {
            Some(Some(n)) => n as u32,
            _ => defaults.max_per_domain,
        };
        OutboundLimits { max_per_sender, max_per_domain, window: defaults.window }
    }

    pub open spec fn spec_default() -> Self {
        OutboundLimits { max_per_sender: DEFAULT_MAX_PER_SENDER, max_per_domain: DEFAULT_MAX_PER_DOMAIN, window: DEFAULT_WINDOW }
    }

    /// The end of the window that `now` falls in (a zero window counts as one
    /// second); it always lies after `now`.
    pub fn window_end(&self, now: u64) -> (end: u64)
        requires
            window_end_of(*self, now) <= u64::MAX,
        ensures
            end == window_end_of(*self, now),
            end > now,
    {
        let window = if self.window == 0 { 1 } else { self.window };
        let q = now / window;
        assert((q + 1) * window <= u64::MAX);
        assert(q + 1 <= (q + 1) * window) by (nonlinear_arith)
            requires
                window >= 1,
        ;
        assert((q + 1) * window > now) by (nonlinear_arith)
            requires
                window >= 1,
                q == now / window,
        ;
        (q + 1) * window
    }
}

/// The end of the window that `now` falls in: the next multiple of the window
/// (one second when the window is zero).
pub open spec fn window_end_of(limits: OutboundLimits, now: u64) -> int {
    let window = if limits.window == 0 { 1 } else { limits.window };
    (now / window + 1) * window
}

/// Which allowance refused a message.
#[derive(Clone, Copy, Debug, PartialEq, Eq)]
pub enum Axis {
    Sender,
    Domain,
}

#[derive(Clone, Copy, Debug, PartialEq, Eq)]
pub enum OutboundDecision {
    Allow,
    Deny(Axis),
}

impl OutboundDecision {
    pub fn is_allowed(&self) -> (allowed: bool)
        ensures
            allowed == (*self is Allow),
    {
        match self {
            OutboundDecision::Allow => true,
            OutboundDecision::Deny(_) => false,
        }
    }
}

/// The counts an admitted message leaves stored: one more on each enabled
/// axis.
#[derive(Clone, Copy, Debug, PartialEq, Eq)]
pub struct OutboundRecord {
    pub sender: Option<u32>,
    pub domain: Option<u32>,
}

/// The decision on one more message of a sender who has sent `sender_count`
/// in the window, from a domain that has sent `domain_count`: see `decide`.
pub open spec fn spec_decide(limits: OutboundLimits, sender_count: u32, domain_count: u32) -> (OutboundDecision, OutboundRecord) {
    let none = OutboundRecord { sender: None, domain: None };
    if limits.window == 0 || (limits.max_per_sender == 0 && limits.max_per_domain == 0) {
        (OutboundDecision::Allow, none)
    } else if limits.max_per_sender != 0 && sender_count >= limits.max_per_sender {
        (OutboundDecision::Deny(Axis::Sender), none)
    } else if limits.max_per_domain != 0 && domain_count >= limits.max_per_domain {
        (OutboundDecision::Deny(Axis::Domain), none)
    } else {
        (OutboundDecision::Allow, OutboundRecord {
            sender: if limits.max_per_sender == 0 { None } else { Some((sender_count + 1) as u32) },
            domain: if limits.max_per_domain == 0 { None } else { Some((domain_count + 1) as u32) },
        })
    }
}

/// Decides on one more message of a sender who has sent `sender_count` in the
/// window, from a domain that has sent `domain_count`: refused by the first
/// axis whose count has reached its (non-zero) allowance, sender first;
/// admitted otherwise, with each enabled axis counting one more.
pub fn decide(limits: &OutboundLimits, sender_count: u32, domain_count: u32) -> (r: (OutboundDecision, OutboundRecord))
    ensures
        r == spec_decide(*limits, sender_count, domain_count),
{
    let none = OutboundRecord { sender: None, domain: None };
    if limits.is_disabled() {
        return (OutboundDecision::Allow, none);
    }
    if limits.max_per_sender != 0 && sender_count >= limits.max_per_sender {
        return (OutboundDecision::Deny(Axis::Sender), none);
    }
    if limits.max_per_domain != 0 && domain_count >= limits.max_per_domain {
        return (OutboundDecision::Deny(Axis::Domain), none);
    }
    let sender = if limits.max_per_sender == 0 { None } else { Some(sender_count + 1) };
    let domain = if limits.max_per_domain == 0 { None } else { Some(domain_count + 1) };
    (OutboundDecision::Allow, OutboundRecord { sender, domain })
}

/// The sender as counted: lowered, and its domain (what follows the last
/// `@`, empty without one).
pub fn identities(sender: &str) -> (r: (String, String))
    ensures
        r.0@ == lower_chars(sender@),
        r.1@ == spec_address_part(lower_chars(sender@), AddressPart::Domain),
{
    let lowered = to_lower_string(sender);
    let domain = address_part(lowered.as_str(), AddressPart::Domain);
    (lowered, domain)
}

/// The counter key of an axis for an identity in the window of `now`: `ro:`,
/// the axis tag, the window number and the identity.
pub open spec fn spec_window_key(axis: Axis, identity: Seq<u8>, now: u64, window: u64) -> Seq<u8> {
    seq![114u8, 111u8, 58u8] + seq![match axis {
        Axis::Sender => 115u8,
        Axis::Domain => 100u8,
    }] + be_bytes(bucket_of(now, window)) + identity
}

pub fn window_key(axis: Axis, identity: &[u8], now: u64, window: u64) -> (key: Vec<u8>)
    ensures
        key@ == spec_window_key(axis, identity@, now, window),
{
    let mut key: Vec<u8> = Vec::new();
    key.push(114u8);
    key.push(111u8);
    key.push(58u8);
    key.push(
        match axis {
            Axis::Sender => 115u8,
            Axis::Domain => 100u8,
        },
    );
    let bucket = if window == 0 { now } else { now / window };
    push_be_bytes(&mut key, bucket);
    let ghost head = key@;
    let mut i: usize = 0;
    while i < identity.len()
        invariant
            i <= identity@.len(),
            key@ == head + identity@.take(i as int),
        decreases identity@.len() - i,
    {
        key.push(identity[i]);
        i += 1;
        assert(key@ =~= head + identity@.take(i as int));
    }
    assert(identity@.take(i as int) =~= identity@);
    assert(key@ =~= spec_window_key(axis, identity@, now, window));
    key
}

} // verus!
