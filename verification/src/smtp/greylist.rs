use vstd::prelude::*;
use vstd::string::StringSliceAdditionalSpecFns;
use crate::text::{lower_bytes, to_lower_byte};

verus! {

/// The reply to a first attempt from an unknown sender and recipient pair.
pub const DEFERRED: &'static str = "452 4.2.2 Greylisted, please retry in a few moments\r\n";

/// How long, in seconds, a first attempt is remembered; zero disables
/// greylisting.
#[derive(Clone, Copy, Debug, Default, PartialEq, Eq)]
pub struct GreylistConfig {
    pub window: u64,
}

impl GreylistConfig {
    pub fn is_disabled(&self) -> (disabled: bool)
        ensures
            disabled == (self.window == 0),
    {
        self.window == 0
    }
}

#[derive(Clone, Copy, Debug, PartialEq, Eq)]
pub enum GreylistDecision {
    Allow,
    Defer(&'static [u8]),
}

impl GreylistDecision {
    pub fn is_allowed(&self) -> (allowed: bool)
        ensures
            allowed == (*self is Allow),
    {
        match self {
            GreylistDecision::Allow => true,
            GreylistDecision::Defer(_) => false,
        }
    }
}

/// Whether the pair must be looked up at all: not for an authenticated
/// client, nor when greylisting is off.
pub fn needs_lookup(config: &GreylistConfig, authenticated: bool) -> (needed: bool)
    ensures
        needed == (!authenticated && config.window != 0),
{
    !authenticated && !config.is_disabled()
}

/// Decides once the pair was looked up (`None` when the store failed): a
/// known pair passes, an unknown one is deferred and must be recorded, and a
/// store failure lets the message through.
pub fn after_lookup(seen: Option<bool>) -> (r: (GreylistDecision, bool))
    ensures
        seen == Some(false) ==> (r.0 matches GreylistDecision::Defer(reply) && reply@ == DEFERRED.spec_bytes()
            && r.1),
        seen != Some(false) ==> r == (GreylistDecision::Allow, false),
{
    match seen {
        Some(false) => (GreylistDecision::Defer(DEFERRED.as_bytes()), true),
        _ => (GreylistDecision::Allow, false),
    }
}

/// The four big-endian bytes of a number.
pub open spec fn be32(x: u32) -> Seq<u8> {
    seq![(x >> 24) as u8, (x >> 16) as u8, (x >> 8) as u8, x as u8]
}

/// The store key of a sender and recipient pair, both lowered: `gl:`, then
/// each address preceded by its length as four big-endian bytes.
pub open spec fn spec_pair_key(from: Seq<u8>, rcpt: Seq<u8>) -> Seq<u8> {
    seq![103u8, 108u8, 58u8] + be32(from.len() as u32) + lower_bytes(from) + be32(rcpt.len() as u32) + lower_bytes(rcpt)
}

fn push_lowered(key: &mut Vec<u8>, bytes: &[u8])
    ensures
        final(key)@ == old(key)@ + be32(bytes@.len() as u32) + lower_bytes(bytes@),
{
    let n = bytes.len() as u32;
    key.push((n >> 24) as u8);
    key.push((n >> 16) as u8);
    key.push((n >> 8) as u8);
    key.push(n as u8);
    let ghost head = key@;
    assert(head =~= old(key)@ + be32(bytes@.len() as u32));
    let mut i: usize = 0;
    while i < bytes.len()
        invariant
            i <= bytes@.len(),
            key@ == head + lower_bytes(bytes@.take(i as int)),
        decreases bytes@.len() - i,
    {
        key.push(to_lower_byte(bytes[i]));
        i += 1;
        assert(key@ =~= head + lower_bytes(bytes@.take(i as int)));
    }
    assert(bytes@.take(i as int) =~= bytes@);
}

pub fn pair_key(from: &str, rcpt: &str) -> (key: Vec<u8>)
    ensures
        key@ == spec_pair_key(from.spec_bytes(), rcpt.spec_bytes()),
{
    let mut key: Vec<u8> = Vec::new();
    key.push(103u8);
    key.push(108u8);
    key.push(58u8);
    push_lowered(&mut key, from.as_bytes());
    push_lowered(&mut key, rcpt.as_bytes());
    assert(key@ =~= spec_pair_key(from.spec_bytes(), rcpt.spec_bytes()));
    key
}

} // verus!
