use vstd::prelude::*;
use vstd::string::StringSliceAdditionalSpecFns;
use crate::smtp::arc::ArcDecision;
use crate::smtp::dkim_verify::DkimDecision;
use crate::smtp::dmarc::{DmarcAction, DmarcDecision};
use crate::smtp::dnsbl::DnsblDecision;
use crate::smtp::spf::SpfDecision;

verus! {

pub const REJECTED: &'static str = "550 5.7.1 Message rejected by sender policy\r\n";
pub const DEFERRED: &'static str = "451 4.7.1 Message temporarily deferred, please retry\r\n";

/// Where an accepted message is filed.
#[derive(Clone, Copy, Debug, PartialEq, Eq)]
pub enum Disposition {
    Inbox,
    Spam,
}

/// What happens to an inbound message after the authentication checks.
#[derive(Clone, Copy, Debug, PartialEq, Eq)]
pub enum SpamDecision {
    Accept(Disposition),
    Defer(&'static [u8]),
    Reject(&'static [u8]),
}

impl SpamDecision {
    pub fn is_accepted(&self) -> (accepted: bool)
        ensures
            accepted == (*self is Accept),
    {
        match self {
            SpamDecision::Accept(_) => true,
            _ => false,
        }
    }

    pub fn disposition(&self) -> (disposition: Option<Disposition>)
        ensures
            disposition == match *self {
                SpamDecision::Accept(d) => Some(d),
                _ => None,
            },
    {
        match self {
            SpamDecision::Accept(disposition) => Some(*disposition),
            _ => None,
        }
    }
}

/// The authentication results of a message.
pub struct AuthSummary<'a> {
    pub spf: &'a SpfDecision,
    pub dkim: &'a DkimDecision,
    pub dmarc: &'a DmarcDecision,
    pub arc: &'a ArcDecision,
}

/// The reputation of the sending address.
pub struct ReputationSummary<'a> {
    pub dnsbl: &'a DnsblDecision,
}

/// The decision on an inbound message: an authenticated client's message
/// goes to the inbox; a blocklisted address is refused with the blocklist's
/// reply; otherwise DMARC decides: reject (deferred instead when a lookup
/// failed transiently), quarantine to the spam folder, or pass to the inbox.
pub open spec fn spec_decision(authenticated: bool, auth: AuthSummary, reputation: ReputationSummary, decision: SpamDecision) -> bool {
    if authenticated {
        decision == SpamDecision::Accept(Disposition::Inbox)
    } else {
        match *reputation.dnsbl {
            DnsblDecision::Reject { reply, .. } => decision == SpamDecision::Reject(reply),
            DnsblDecision::Allow => match auth.dmarc.action {
                DmarcAction::Reject => if auth.dmarc.temp_error {
                    decision matches SpamDecision::Defer(r) && r@ == DEFERRED.spec_bytes()
                } else {
                    decision matches SpamDecision::Reject(r) && r@ == REJECTED.spec_bytes()
                },
                DmarcAction::Quarantine => decision == SpamDecision::Accept(Disposition::Spam),
                DmarcAction::Pass => decision == SpamDecision::Accept(Disposition::Inbox),
            },
        }
    }
}

/// Decides on an inbound message.
pub fn decide(authenticated: bool, auth: &AuthSummary, reputation: &ReputationSummary) -> (decision: SpamDecision)
    ensures
        spec_decision(authenticated, *auth, *reputation, decision),
{
    if authenticated {
        return SpamDecision::Accept(Disposition::Inbox);
    }
    match reputation.dnsbl {
        DnsblDecision::Reject { reply, .. } => {
            return SpamDecision::Reject(*reply);
        },
        DnsblDecision::Allow => {},
    }
    match auth.dmarc.action {
        DmarcAction::Reject => {
            if auth.dmarc.temp_error {
                return SpamDecision::Defer(DEFERRED.as_bytes());
            }
            SpamDecision::Reject(REJECTED.as_bytes())
        },
        DmarcAction::Quarantine => SpamDecision::Accept(Disposition::Spam),
        DmarcAction::Pass => SpamDecision::Accept(Disposition::Inbox),
    }
}

} // verus!
