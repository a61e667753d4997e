use vstd::prelude::*;
use crate::smtp::dkim_verify::DkimVerdict;

verus! {

/// The outcome of verifying a message's ARC chain.
#[derive(Clone, Debug, PartialEq, Eq)]
pub struct ArcDecision {
    pub result: DkimVerdict,
    pub instances: usize,
}

impl ArcDecision {
    pub fn passed(&self) -> (passed: bool)
        ensures
            passed == (self.result == DkimVerdict::Pass),
    {
        self.result == DkimVerdict::Pass
    }

    pub fn temp_error(&self) -> (transient: bool)
        ensures
            transient == (self.result == DkimVerdict::TempError),
    {
        self.result == DkimVerdict::TempError
    }

    /// The message carries at least one ARC set.
    pub fn present(&self) -> (present: bool)
        ensures
            present == (self.instances > 0),
    {
        self.instances > 0
    }
}

} // verus!
