use vstd::prelude::*;

verus! {

/// What a DMARC evaluation asks of a message.
#[derive(Clone, Copy, Debug, PartialEq, Eq)]
pub enum DmarcAction {
    Pass,
    Quarantine,
    Reject,
}

/// The policy a domain publishes in its DMARC record.
#[derive(Clone, Copy, Debug, PartialEq, Eq)]
pub enum DmarcPolicy {
    NoPolicy,
    Quarantine,
    Reject,
    Unspecified,
}

/// The outcome of one DMARC identifier check (SPF or DKIM alignment), or
/// of the evaluation as a whole.
#[derive(Clone, Copy, Debug, PartialEq, Eq, Structural)]
pub enum DmarcResult {
    Pass,
    Fail,
    TempError,
    PermError,
    Unknown,
}

/// The result of a DMARC evaluation: the author domain, the result, the
/// published policy, what it asks, and whether a lookup failed for a
/// transient reason.
#[derive(Clone, Debug, PartialEq, Eq)]
pub struct DmarcDecision {
    pub domain: String,
    pub result: DmarcResult,
    pub policy: DmarcPolicy,
    pub action: DmarcAction,
    pub temp_error: bool,
}

impl DmarcDecision {
    /// SPF or DKIM passed in alignment with the author domain.
    pub fn pass(&self) -> (passed: bool)
        ensures
            passed == (self.result == DmarcResult::Pass),
    {
        self.result == DmarcResult::Pass
    }
}

/// The overall result of an evaluation: a pass when SPF or DKIM aligned;
/// otherwise the SPF result when there is one, else the DKIM result.
pub open spec fn spec_overall(spf: DmarcResult, dkim: DmarcResult) -> DmarcResult {
    if spf == DmarcResult::Pass || dkim == DmarcResult::Pass {
        DmarcResult::Pass
    } else if spf != DmarcResult::Unknown {
        spf
    } else {
        dkim
    }
}

/// Decides on an author domain from the SPF and DKIM alignment results and
/// the published policy.
pub fn decision_of(domain: String, spf: DmarcResult, dkim: DmarcResult, policy: DmarcPolicy) -> (decision: DmarcDecision)
    ensures
        decision.domain == domain,
        decision.result == spec_overall(spf, dkim),
        decision.policy == policy,
        decision.action == spec_action_for(policy, spf == DmarcResult::Pass || dkim == DmarcResult::Pass),
        decision.temp_error == (spf == DmarcResult::TempError || dkim == DmarcResult::TempError),
{
    let aligned = spf == DmarcResult::Pass || dkim == DmarcResult::Pass;
    let temp_error = spf == DmarcResult::TempError || dkim == DmarcResult::TempError;
    let result = if aligned {
        DmarcResult::Pass
    } else if spf != DmarcResult::Unknown {
        spf
    } else {
        dkim
    };
    let action = action_for(policy, aligned);
    DmarcDecision { domain, result, policy, action, temp_error }
}

/// An aligned message passes whatever the policy; otherwise the policy
/// decides, with no policy meaning pass.
pub open spec fn spec_action_for(policy: DmarcPolicy, aligned: bool) -> DmarcAction {
    if aligned {
        DmarcAction::Pass
    } else {
        match policy {
            DmarcPolicy::Reject => DmarcAction::Reject,
            DmarcPolicy::Quarantine => DmarcAction::Quarantine,
            _ => DmarcAction::Pass,
        }
    }
}

pub fn action_for(policy: DmarcPolicy, aligned: bool) -> (action: DmarcAction)
    ensures
        action == spec_action_for(policy, aligned),
{
    if aligned {
        return DmarcAction::Pass;
    }
    match policy {
        DmarcPolicy::Reject => DmarcAction::Reject,
        DmarcPolicy::Quarantine => DmarcAction::Quarantine,
        DmarcPolicy::NoPolicy => DmarcAction::Pass,
        DmarcPolicy::Unspecified => DmarcAction::Pass,
    }
}

} // verus!
