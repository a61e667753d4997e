use vstd::prelude::*;
use vstd::string::StringSliceAdditionalSpecFns;

verus! {

/// The reply to a client whose address is listed.
pub const LISTED: &'static str = "554 5.7.1 Connection refused, your address is on a public blocklist\r\n";

/// The blocklist zone used by default.
pub const DEFAULT_ZONE: &'static str = "zen.spamhaus.org";

/// The DNS blocklist zones a connecting address is looked up in.
#[derive(Clone, Debug, PartialEq, Eq)]
pub struct DnsblConfig {
    pub zones: Vec<String>,
}

impl Default for DnsblConfig {
    fn default() -> (config: Self)
        ensures
            config.zones@.len() == 1,
            config.zones@[0]@ == DEFAULT_ZONE@,
    {
        let mut zones: Vec<String> = Vec::new();
        zones.push(DEFAULT_ZONE.to_string());
        DnsblConfig { zones }
    }
}

impl DnsblConfig {
    pub fn is_empty(&self) -> (empty: bool)
        ensures
            empty == (self.zones@.len() == 0),
    {
        self.zones.len() == 0
    }
}

/// What a blocklist zone says of a listed address: the answer addresses (as
/// IPv4 octets) and the reason text, if any.
#[derive(Clone, Debug, PartialEq, Eq)]
pub struct DnsblListing {
    pub codes: Vec<[u8; 4]>,
    pub reason: Option<String>,
}

/// The answer of one zone's lookup.
#[derive(Clone, Debug, PartialEq, Eq)]
pub enum ZoneLookup {
    Listed(DnsblListing),
    Clear,
    Failed,
}

/// Whether a connection may go on, or the zone that lists it, its listing
/// and the reply.
#[derive(Clone, Debug, PartialEq, Eq)]
pub enum DnsblDecision {
    Allow,
    Reject { zone: String, listing: DnsblListing, reply: &'static [u8] },
}

impl DnsblDecision {
    pub fn is_allowed(&self) -> (allowed: bool)
        ensures
            allowed == (*self is Allow),
    {
        match self {
            DnsblDecision::Allow => true,
            _ => false,
        }
    }
}

/// The first zone, in order, whose lookup found the address listed; a lookup
/// that failed counts as not listed.
pub open spec fn first_listing(lookups: Seq<ZoneLookup>) -> int
    decreases lookups.len(),
{
    if lookups.len() == 0 {
        -1
    } else if lookups[0] is Listed {
        0
    } else {
        let rest = first_listing(lookups.drop_first());
        if rest < 0 { -1 } else { rest + 1 }
    }
}

/// Decides on a connection from the lookups made in each zone of the
/// configuration: refused with the first listing zone and its listing, else
/// allowed.
pub fn decide(config: &DnsblConfig, lookups: Vec<ZoneLookup>) -> (decision: DnsblDecision)
    requires
        lookups@.len() == config.zones@.len(),
    ensures
        first_listing(lookups@) < 0 ==> decision is Allow,
        first_listing(lookups@) >= 0 ==> (decision matches DnsblDecision::Reject { zone, listing, reply }
            && zone@ == config.zones@[first_listing(lookups@)]@
            && lookups@[first_listing(lookups@)] == ZoneLookup::Listed(listing)
            && reply@ == LISTED.spec_bytes()),
{
    let ghost all = lookups@;
    let mut remaining = lookups;
    let mut i: usize = 0;
    assert(all.skip(0) =~= all);
    while i < remaining.len()
        invariant
            remaining@ == all,
            all == lookups@,
            i <= all.len() == config.zones@.len(),
            first_listing(all) == if first_listing(all.skip(i as int)) < 0 {
                -1
            } else {
                first_listing(all.skip(i as int)) + i
            },
        decreases all.len() - i,
    {
        proof {
            assert(all.skip(i as int).drop_first() =~= all.skip(i + 1));
        }
        assert(all.skip(i as int)[0] == all[i as int]);
        let listed = match &remaining[i] {
            ZoneLookup::Listed(_) => true,
            _ => false,
        };
        if listed {
            assert(all[i as int] is Listed);
            assert(all.skip(i as int).len() > 0);
            assert(first_listing(all.skip(i as int)) == 0);
            assert(first_listing(all) == i);
            let zone = config.zones[i].clone();
            match remaining.remove(i) {
                ZoneLookup::Listed(listing) => {
                    return DnsblDecision::Reject { zone, listing, reply: LISTED.as_bytes() };
                },
                _ => {
                    return DnsblDecision::Allow;
                },
            }
        }
        i += 1;
    }
    DnsblDecision::Allow
}

/// What to do after the lookup in one zone: decide, or look the address up
/// in the next zone.
#[derive(Clone, Debug, PartialEq, Eq)]
pub enum DnsblStep {
    Decided(DnsblDecision),
    Next(usize),
}

/// The check over the zones, one lookup at a time: a listing in the zone at
/// `index` refuses the connection at once, with that zone and listing;
/// otherwise the next zone is looked up, and after the last one the
/// connection is allowed.
pub fn after_zone(config: &DnsblConfig, index: usize, lookup: ZoneLookup) -> (next: DnsblStep)
    requires
        index < config.zones@.len(),
    ensures
        match lookup {
            ZoneLookup::Listed(listing) => next matches DnsblStep::Decided(DnsblDecision::Reject { zone, listing: l, reply })
                && zone@ == config.zones@[index as int]@ && l == listing && reply@ == LISTED.spec_bytes(),
            _ => if index + 1 < config.zones@.len() {
                next == DnsblStep::Next((index + 1) as usize)
            } else {
                next == DnsblStep::Decided(DnsblDecision::Allow)
            },
        },
{
    match lookup {
        ZoneLookup::Listed(listing) => DnsblStep::Decided(
            DnsblDecision::Reject { zone: config.zones[index].clone(), listing, reply: LISTED.as_bytes() },
        ),
        _ => if index < config.zones.len() - 1 {
            DnsblStep::Next(index + 1)
        } else {
            DnsblStep::Decided(DnsblDecision::Allow)
        },
    }
}

} // verus!
