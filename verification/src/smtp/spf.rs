use vstd::prelude::*;

verus! {

/// Where the local host's own name for SPF checks comes from.
#[derive(Clone, Debug, PartialEq, Eq)]
pub struct SpfConfig {
    pub host_domain: String,
}

impl SpfConfig {
    pub fn new(host_domain: String) -> (config: Self)
        ensures
            config.host_domain == host_domain,
    {
        SpfConfig { host_domain }
    }
}

/// Which identity an SPF check looked at.
#[derive(Clone, Copy, Debug, PartialEq, Eq)]
pub enum SpfStage {
    Ehlo,
    MailFrom,
}

/// The result of an SPF check.
#[derive(Clone, Copy, Debug, PartialEq, Eq, Structural)]
pub enum SpfVerdict {
    Pass,
    Fail,
    SoftFail,
    Neutral,
    TempError,
    PermError,
    Unknown,
}

/// An SPF result with the stage and the domain it was checked for.
#[derive(Clone, Debug, PartialEq, Eq)]
pub struct SpfDecision {
    pub stage: SpfStage,
    pub domain: String,
    pub result: SpfVerdict,
}

impl SpfDecision {
    pub fn passed(&self) -> (passed: bool)
        ensures
            passed == (self.result == SpfVerdict::Pass),
    {
        self.result == SpfVerdict::Pass
    }

    /// The decision on the MAIL FROM identity that a check reported.
    pub fn mail_from(domain: String, result: SpfVerdict) -> (decision: Self)
        ensures
            decision == (SpfDecision { stage: SpfStage::MailFrom, domain, result }),
    {
        SpfDecision { stage: SpfStage::MailFrom, domain, result }
    }

    /// The decision on the HELO identity that a check reported.
    pub fn ehlo(domain: String, result: SpfVerdict) -> (decision: Self)
        ensures
            decision == (SpfDecision { stage: SpfStage::Ehlo, domain, result }),
    {
        SpfDecision { stage: SpfStage::Ehlo, domain, result }
    }
}

} // verus!
