use vstd::prelude::*;
use crate::text::{chars_of, str_eq};

verus! {

/// One MX record: its preference and the exchange it names.
#[derive(Clone, Debug, PartialEq, Eq)]
pub struct MailExchange {
    pub preference: u16,
    pub host: String,
}

/// An exchange to deliver to, with the addresses it resolved to (as text).
#[derive(Clone, Debug, PartialEq, Eq)]
pub struct MxTarget {
    pub host: String,
    pub ips: Vec<String>,
}

/// Where a domain's mail goes: to these exchanges, nowhere (a null MX), or
/// to no exchange that resolves.
#[derive(Clone, Debug, PartialEq, Eq)]
pub enum MxResolution {
    Targets(Vec<MxTarget>),
    NoMailAccepted,
    Unresolvable,
}

/// A null MX: a single record, at preference zero, naming the root.
pub open spec fn spec_is_null_mx(exchanges: Seq<MailExchange>) -> bool {
    exchanges.len() == 1 && exchanges[0].preference == 0 && (exchanges[0].host@.len() == 0 || exchanges[0].host@ == "."@)
}

pub fn is_null_mx(exchanges: &[MailExchange]) -> (null: bool)
    ensures
        null == spec_is_null_mx(exchanges@),
{
    if exchanges.len() != 1 {
        return false;
    }
    let exchange = &exchanges[0];
    exchange.preference == 0 && (chars_of(exchange.host.as_str()).len() == 0 || str_eq(exchange.host.as_str(), "."))
}

/// The hosts to look up for a domain: none for a null MX; the domain itself
/// when it publishes no MX; otherwise the exchanges in the order given.
pub fn hosts_to_try(domain: &str, exchanges: Vec<MailExchange>) -> (hosts: Option<Vec<String>>)
    ensures
        spec_is_null_mx(exchanges@) ==> hosts is None,
        !spec_is_null_mx(exchanges@) && exchanges@.len() == 0 ==> (hosts matches Some(h) && h@.len() == 1 && h@[0]@
            == domain@),
        !spec_is_null_mx(exchanges@) && exchanges@.len() > 0 ==> (hosts matches Some(h) && h@.len() == exchanges@.len()
            && forall|i: int| 0 <= i < h@.len() ==> #[trigger] h@[i] == exchanges@[i].host),
{
    if is_null_mx(exchanges.as_slice()) {
        return None;
    }
    let mut hosts: Vec<String> = Vec::new();
    if exchanges.len() == 0 {
        hosts.push(String::from_str(domain));
        return Some(hosts);
    }
    let mut i: usize = 0;
    while i < exchanges.len()
        invariant
            i <= exchanges@.len(),
            hosts@.len() == i,
            forall|j: int| 0 <= j < i ==> #[trigger] hosts@[j] == exchanges@[j].host,
        decreases exchanges@.len() - i,
    {
        hosts.push(exchanges[i].host.clone());
        i += 1;
    }
    Some(hosts)
}

/// The exchanges that resolved: those with at least one address, in order.
pub open spec fn resolved(targets: Seq<MxTarget>) -> Seq<MxTarget>
    decreases targets.len(),
{
    if targets.len() == 0 {
        Seq::empty()
    } else if targets.last().ips@.len() > 0 {
        resolved(targets.drop_last()).push(targets.last())
    } else {
        resolved(targets.drop_last())
    }
}

/// Ends a resolution: exchanges without addresses are dropped, and nothing
/// left means unresolvable.
pub fn resolution_of(targets: Vec<MxTarget>) -> (resolution: MxResolution)
    ensures
        resolved(targets@).len() == 0 ==> resolution == MxResolution::Unresolvable,
        resolved(targets@).len() > 0 ==> (resolution matches MxResolution::Targets(t) && t@ == resolved(targets@)),
{
    let ghost all = targets@;
    let total = targets.len();
    let mut rest = targets;
    let mut kept: Vec<MxTarget> = Vec::new();
    let mut k: usize = 0;
    while rest.len() > 0
        invariant
            k + rest@.len() == all.len(),
            all.len() == total,
            rest@ == all.subrange(k as int, all.len() as int),
            kept@ == resolved(all.take(k as int)),
        decreases rest@.len(),
    {
        let target = rest.remove(0);
        assert(all.take(k + 1).drop_last() =~= all.take(k as int));
        assert(all.take(k + 1).last() == all[k as int]);
        if target.ips.len() > 0 {
            kept.push(target);
        }
        k += 1;
        assert(rest@ =~= all.subrange(k as int, all.len() as int));
    }
    assert(all.take(k as int) =~= all);
    if kept.len() == 0 {
        MxResolution::Unresolvable
    } else {
        MxResolution::Targets(kept)
    }
}

} // verus!
