use vstd::prelude::*;
use crate::smtp::ratelimit_in::RateLimits;
use crate::smtp::ratelimit_out::{json_u64_field, read_json_u64, value_or};

verus! {

/// The settings objects and fields that tune an inbound connection.
pub const ANTI_SPAM: &'static str = "antiSpam";
pub const DNSBL_ZONES: &'static str = "dnsblZones";
pub const GREYLIST_WINDOW: &'static str = "greylistWindowSeconds";
pub const RATE_LIMITS: &'static str = "rateLimits";
pub const MAX_CONNECTIONS: &'static str = "maxConnectionsPerIp";
pub const MAX_MESSAGES: &'static str = "maxMessagesPerConnection";

/// What `serde_json::from_slice::<serde_json::Value>`, indexing by `outer`
/// then `inner`, `as_array` and `as_str` on each element make of some bytes:
/// `None` when they are no JSON, else the array found there (if any), each
/// element a string or not.
pub uninterp spec fn json_string_list(bytes: Seq<u8>, outer: Seq<char>, inner: Seq<char>) -> Option<Option<Seq<Option<Seq<char>>>>>;

/// Parses the bytes with `serde_json::from_slice` and reads
/// `value[outer][inner].as_array()`, mapping each element by `as_str`. The
/// contract names the result: the JSON grammar is the crate's own.
#[verifier::external_body]
fn read_json_strings(bytes: &[u8], outer: &str, inner: &str) -> (r: Option<Option<Vec<Option<String>>>>)
    ensures
        match json_string_list(bytes@, outer@, inner@) {
            None => r is None,
            Some(None) => r matches Some(None),
            Some(Some(items)) => r matches Some(Some(v)) && v@.len() == items.len() && forall|i: int|
                0 <= i < items.len() ==> match items[i] {
                    Some(t) => (#[trigger] v@[i]) matches Some(s) && s@ == t,
                    None => v@[i] is None,
                },
        },
{
    let value = serde_json::from_slice::<serde_json::Value>(bytes).ok()?;
    match value[outer][inner].as_array() {
        Some(items) => {
            let mut out = Vec::new();
            for item in items {
                out.push(item.as_str().map(str::to_string));
            }
            Some(Some(out))
        },
        None => Some(None),
    }
}

/// The strings among a list of optional strings, in order.
pub open spec fn strings_only(items: Seq<Option<Seq<char>>>) -> Seq<Seq<char>>
    decreases items.len(),
{
    if items.len() == 0 {
        Seq::empty()
    } else {
        match items.last() {
            Some(s) => strings_only(items.drop_last()).push(s),
            None => strings_only(items.drop_last()),
        }
    }
}

/// How the stored settings tune a connection: the blocklist zones and the
/// greylist window when the settings give them (`None`: keep), and the rate
/// limits with each allowance the settings give (truncated to 32 bits).
pub struct ConnectionTuning {
    pub dnsbl_zones: Option<Vec<String>>,
    pub greylist_window: Option<u64>,
    pub limits: RateLimits,
}

/// A number of the settings, or a fallback.
pub open spec fn allowance_or(bytes: Seq<u8>, inner: Seq<char>, fallback: u32) -> u32 {
    value_or(json_u64_field(bytes, RATE_LIMITS@, inner), fallback)
}

/// A list of optional strings, as characters.
pub open spec fn optional_texts(items: Seq<Option<String>>) -> Seq<Option<Seq<char>>> {
    items.map_values(|o: Option<String>| match o {
        Some(s) => Some(s@),
        None => None,
    })
}

/// Reads the tuning of a connection from the stored settings; without
/// settings nothing changes.
pub fn for_connection(settings: Option<&[u8]>, limits: RateLimits) -> (tuning: ConnectionTuning)
    ensures
        settings is None ==> tuning.dnsbl_zones is None && tuning.greylist_window is None && tuning.limits == limits,
        settings matches Some(bytes) ==> {
            &&& match json_string_list(bytes@, ANTI_SPAM@, DNSBL_ZONES@) {
                Some(Some(items)) => tuning.dnsbl_zones matches Some(z) && z@.map_values(|s: String| s@) == strings_only(items),
                _ => tuning.dnsbl_zones is None,
            }
            &&& match json_u64_field(bytes@, ANTI_SPAM@, GREYLIST_WINDOW@) {
                Some(Some(w)) => tuning.greylist_window == Some(w),
                _ => tuning.greylist_window is None,
            }
            &&& tuning.limits == (RateLimits {
                max_connections: allowance_or(bytes@, MAX_CONNECTIONS@, limits.max_connections),
                max_messages: allowance_or(bytes@, MAX_MESSAGES@, limits.max_messages),
                window: limits.window,
            })
        },
{
    let bytes = match settings {
        Some(b) => b,
        None => return ConnectionTuning { dnsbl_zones: None, greylist_window: None, limits },
    };
    let zones = read_json_strings(bytes, ANTI_SPAM, DNSBL_ZONES);
    proof {
        if zones is Some && zones->0 is Some {
            if let Some(Some(list)) = json_string_list(bytes@, ANTI_SPAM@, DNSBL_ZONES@) {
                assert(optional_texts(zones->0->0@) =~= list);
            }
        }
    }
    let greylist = read_json_u64(bytes, ANTI_SPAM, GREYLIST_WINDOW);
    let max_connections = read_json_u64(bytes, RATE_LIMITS, MAX_CONNECTIONS);
    let max_messages = read_json_u64(bytes, RATE_LIMITS, MAX_MESSAGES);
    tune_connection(zones, greylist, max_connections, max_messages, limits)
}

/// The tuning that the settings fields give, as read (`None`: the settings
/// are no JSON; `Some(None)`: the field is absent or of another kind): the
/// strings of the zone list when there is one, the greylist window when it
/// is a number, and each allowance the settings give (truncated to 32 bits),
/// else the one in force.
pub fn tune_connection(
    zones: Option<Option<Vec<Option<String>>>>,
    greylist: Option<Option<u64>>,
    max_connections: Option<Option<u64>>,
    max_messages: Option<Option<u64>>,
    limits: RateLimits,
) -> (tuning: ConnectionTuning)
    ensures
        match zones {
            Some(Some(items)) => tuning.dnsbl_zones matches Some(z) && z@.map_values(|s: String| s@) == strings_only(
                optional_texts(items@),
            ),
            _ => tuning.dnsbl_zones is None,
        },
        tuning.greylist_window == match greylist {
            Some(Some(w)) => Some(w),
            _ => None::<u64>,
        },
        tuning.limits == (RateLimits {
            max_connections: value_or(max_connections, limits.max_connections),
            max_messages: value_or(max_messages, limits.max_messages),
            window: limits.window,
        }),
{
    let dnsbl_zones = match zones {
        Some(Some(items)) => {
            let ghost all = items@;
            let mut zones: Vec<String> = Vec::new();
            let mut i: usize = 0;
            while i < items.len()
                invariant
                    i <= items@.len(),
                    all == items@,
                    zones@.map_values(|s: String| s@) == strings_only(optional_texts(all.take(i as int))),
                decreases items@.len() - i,
            {
                let ghost before = optional_texts(all.take(i as int));
                let ghost after = optional_texts(all.take(i + 1));
                assert(after.drop_last() =~= before);
                match &items[i] {
                    Some(s) => zones.push(s.clone()),
                    None => {},
                }
                i += 1;
                assert(zones@.map_values(|s: String| s@) =~= strings_only(after));
            }
            assert(all.take(all.len() as int) =~= all);
            Some(zones)
        },
        _ => None,
    };
    let greylist_window = match greylist {
        Some(Some(w)) => Some(w),
        _ => None,
    };
    let max_connections = match max_connections {
        Some(Some(n)) => n as u32,
        _ => limits.max_connections,
    };
    let max_messages = match max_messages {
        Some(Some(n)) => n as u32,
        _ => limits.max_messages,
    };
    ConnectionTuning {
        dnsbl_zones,
        greylist_window,
        limits: RateLimits { max_connections, max_messages, window: limits.window },
    }
}

} // verus!
