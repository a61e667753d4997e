use vstd::prelude::*;
use crate::smtp::deliver_out::DeliveryAttempt;
use crate::smtp::session::{hosts, spec_domain_of};
use crate::text::{lower_chars, str_eq, to_lower_string};

verus! {

/// Where a recipient of a queued message goes: a local account, another
/// address, nowhere (unknown here), or out to the internet.
#[derive(Debug, Clone, PartialEq, Eq)]
pub enum LocalRoute {
    Deliver { account_id: u64 },
    Redirect { destination: String },
    Unknown,
    Remote,
}

/// Whether the domain of an address (after its last `@`, in any case) is
/// hosted; an address without a domain never is.
pub fn is_hosted(hosted: &[String], address: &str) -> (hosted_here: bool)
    ensures
        hosted_here == match spec_domain_of(address@) {
            Some(d) => hosts(hosted@, d),
            None => false,
        },
{
    match crate::smtp::session::domain_of(address) {
        Some(domain) => {
            let mut i: usize = 0;
            while i < hosted.len()
                invariant
                    i <= hosted@.len(),
                    spec_domain_of(address@) matches Some(d) && d == domain@,
                    forall|j: int| 0 <= j < i ==> (#[trigger] hosted@[j])@ != domain@,
                decreases hosted@.len() - i,
            {
                if str_eq(hosted[i].as_str(), domain.as_str()) {
                    return true;
                }
                i += 1;
            }
            false
        },
        None => false,
    }
}

/// The hosted set of a directory: every domain and every alias, lower-cased.
pub fn hosted_domains(domains: &[(String, Vec<String>)]) -> (hosted: Vec<String>)
    ensures
        forall|d: Seq<char>| hosts(hosted@, d) <==> exists|i: int| 0 <= i < domains@.len() && (d == lower_chars(
            (#[trigger] domains@[i]).0@,
        ) || exists|j: int| 0 <= j < domains@[i].1@.len() && d == lower_chars((#[trigger] domains@[i].1@[j])@)),
{
    let mut hosted: Vec<String> = Vec::new();
    let mut i: usize = 0;
    while i < domains.len()
        invariant
            i <= domains@.len(),
            forall|d: Seq<char>| hosts(hosted@, d) <==> exists|k: int| 0 <= k < i && (d == lower_chars(
                (#[trigger] domains@[k]).0@,
            ) || exists|j: int| 0 <= j < domains@[k].1@.len() && d == lower_chars((#[trigger] domains@[k].1@[j])@)),
        decreases domains@.len() - i,
    {
        let ghost before = hosted@;
        let (name, aliases) = &domains[i];
        hosted.push(to_lower_string(name.as_str()));
        let mut j: usize = 0;
        while j < aliases.len()
            invariant
                j <= aliases@.len(),
                aliases@ == domains@[i as int].1@,
                hosted@.len() == before.len() + 1 + j,
                forall|x: int| 0 <= x < before.len() ==> hosted@[x] == before[x],
                hosted@[before.len() as int]@ == lower_chars(name@),
                *name == domains@[i as int].0,
                forall|x: int| 0 <= x < j ==> (#[trigger] hosted@[before.len() + 1 + x])@ == lower_chars(aliases@[x]@),
            decreases aliases@.len() - j,
        {
            hosted.push(to_lower_string(aliases[j].as_str()));
            j += 1;
        }
        proof {
            assert forall|d: Seq<char>| hosts(hosted@, d) <==> exists|k: int| 0 <= k < i + 1 && (d == lower_chars(
                (#[trigger] domains@[k]).0@,
            ) || exists|j2: int| 0 <= j2 < domains@[k].1@.len() && d == lower_chars((#[trigger] domains@[k].1@[j2])@)) by {
                if hosts(hosted@, d) {
                    let x = choose|x: int| 0 <= x < hosted@.len() && (#[trigger] hosted@[x])@ == d;
                    if x < before.len() {
                        assert(before[x]@ == d);
                        assert(hosts(before, d));
                    } else if x == before.len() {
                        assert(d == lower_chars(domains@[i as int].0@));
                    } else {
                        let y = x - before.len() - 1;
                        assert(hosted@[before.len() + 1 + y] == hosted@[x]);
                        assert(d == lower_chars(domains@[i as int].1@[y]@));
                    }
                }
                if exists|k: int| 0 <= k < i + 1 && (d == lower_chars((#[trigger] domains@[k]).0@) || exists|j2: int|
                    0 <= j2 < domains@[k].1@.len() && d == lower_chars((#[trigger] domains@[k].1@[j2])@)) {
                    let k = choose|k: int| 0 <= k < i + 1 && (d == lower_chars((#[trigger] domains@[k]).0@) || exists|j2: int|
                        0 <= j2 < domains@[k].1@.len() && d == lower_chars((#[trigger] domains@[k].1@[j2])@));
                    if k < i {
                        assert(hosts(before, d));
                        let x = choose|x: int| 0 <= x < before.len() && (#[trigger] before[x])@ == d;
                        assert(hosted@[x]@ == d);
                    } else if d == lower_chars(domains@[k].0@) {
                        assert(hosted@[before.len() as int]@ == d);
                    } else {
                        let j2 = choose|j2: int| 0 <= j2 < domains@[k].1@.len() && d == lower_chars((#[trigger] domains@[k].1@[j2])@);
                        assert(hosted@[before.len() + 1 + j2]@ == d);
                    }
                }
            }
        }
        i += 1;
    }
    hosted
}

/// A local delivery that filed the message: refused as a full mailbox when
/// some mailbox was over quota, delivered otherwise.
pub fn local_attempt(over_quota: bool) -> (attempt: DeliveryAttempt)
    ensures
        over_quota ==> (attempt matches DeliveryAttempt::Bounced(t) && t@ == "552 5.2.2 Mailbox full"@),
        !over_quota ==> attempt is Delivered,
{
    if over_quota {
        DeliveryAttempt::Bounced(String::from_str("552 5.2.2 Mailbox full"))
    } else {
        DeliveryAttempt::Delivered
    }
}

/// How the directory resolves an address: a local account, a forward to
/// another address, a rejection, or nothing known.
#[derive(Debug, Clone, PartialEq, Eq)]
pub enum Resolution {
    Local { account_id: u64 },
    Forward { destination: String },
    Rejected,
    Unknown,
}

/// The route a resolution gives: an account is delivered to, a forward is
/// followed, and a rejected or unknown address is unknown here.
pub fn route_of(resolution: &Resolution) -> (route: LocalRoute)
    ensures
        route == match *resolution {
            Resolution::Local { account_id } => LocalRoute::Deliver { account_id },
            Resolution::Forward { destination } => LocalRoute::Redirect { destination },
            Resolution::Rejected => LocalRoute::Unknown,
            Resolution::Unknown => LocalRoute::Unknown,
        },
{
    match resolution {
        Resolution::Local { account_id } => LocalRoute::Deliver { account_id: *account_id },
        Resolution::Forward { destination } => LocalRoute::Redirect { destination: destination.clone() },
        Resolution::Rejected => LocalRoute::Unknown,
        Resolution::Unknown => LocalRoute::Unknown,
    }
}

} // verus!
