use vstd::prelude::*;

verus! {

/// The outcome of verifying one DKIM signature.
#[derive(Clone, Copy, Debug, PartialEq, Eq, Structural)]
pub enum DkimVerdict {
    Pass,
    Neutral,
    Fail,
    PermError,
    TempError,
    Unknown,
}

/// The verdict on one signature and the domain that signed.
#[derive(Clone, Debug, PartialEq, Eq)]
pub struct DkimSignatureResult {
    pub domain: String,
    pub result: DkimVerdict,
}

impl DkimSignatureResult {
    pub fn passed(&self) -> (passed: bool)
        ensures
            passed == (self.result == DkimVerdict::Pass),
    {
        match self.result {
            DkimVerdict::Pass => true,
            _ => false,
        }
    }
}

/// The verdicts on all DKIM signatures of a message.
#[derive(Clone, Debug, Default, PartialEq, Eq)]
pub struct DkimDecision {
    pub signatures: Vec<DkimSignatureResult>,
}

/// Some signature carries the verdict.
pub open spec fn some_verdict(signatures: Seq<DkimSignatureResult>, verdict: DkimVerdict) -> bool {
    exists|i: int| 0 <= i < signatures.len() && (#[trigger] signatures[i]).result == verdict
}

impl DkimDecision {
    fn any_verdict(&self, verdict: DkimVerdict) -> (found: bool)
        ensures
            found == some_verdict(self.signatures@, verdict),
    {
        let mut i: usize = 0;
        while i < self.signatures.len()
            invariant
                i <= self.signatures@.len(),
                forall|j: int| 0 <= j < i ==> (#[trigger] self.signatures@[j]).result != verdict,
            decreases self.signatures@.len() - i,
        {
            if self.signatures[i].result == verdict {
                return true;
            }
            i += 1;
        }
        false
    }

    /// Some signature verified.
    pub fn pass(&self) -> (passed: bool)
        ensures
            passed == some_verdict(self.signatures@, DkimVerdict::Pass),
    {
        self.any_verdict(DkimVerdict::Pass)
    }

    /// No signature verified and some failed for a transient reason.
    pub fn temp_error(&self) -> (transient: bool)
        ensures
            transient == (!some_verdict(self.signatures@, DkimVerdict::Pass) && some_verdict(
                self.signatures@,
                DkimVerdict::TempError,
            )),
    {
        !self.pass() && self.any_verdict(DkimVerdict::TempError)
    }
}

/// What a DKIM verifier reports of one signature: the signing domain, when
/// the signature could be read, and its verdict.
pub struct DkimOutput {
    pub domain: Option<String>,
    pub result: DkimVerdict,
}

impl DkimDecision {
    /// The verdicts of all signatures, in order; an unreadable signature
    /// counts under the empty domain.
    pub fn from_outputs(outputs: &[DkimOutput]) -> (decision: Self)
        ensures
            decision.signatures@.len() == outputs@.len(),
            forall|i: int| 0 <= i < outputs@.len() ==> {
                &&& (#[trigger] decision.signatures@[i]).result == outputs@[i].result
                &&& decision.signatures@[i].domain@ == match outputs@[i].domain {
                    Some(d) => d@,
                    None => Seq::<char>::empty(),
                }
            },
    {
        let mut signatures: Vec<DkimSignatureResult> = Vec::new();
        let mut i: usize = 0;
        while i < outputs.len()
            invariant
                i <= outputs@.len(),
                signatures@.len() == i,
                forall|j: int| 0 <= j < i ==> {
                    &&& (#[trigger] signatures@[j]).result == outputs@[j].result
                    &&& signatures@[j].domain@ == match outputs@[j].domain {
                        Some(d) => d@,
                        None => Seq::<char>::empty(),
                    }
                },
            decreases outputs@.len() - i,
        {
            let domain = match &outputs[i].domain {
                Some(d) => d.clone(),
                None => String::new(),
            };
            signatures.push(DkimSignatureResult { domain, result: outputs[i].result });
            i += 1;
        }
        DkimDecision { signatures }
    }
}

/// The signing algorithm a DKIM signature names.
#[derive(Clone, Copy, Debug, PartialEq, Eq, Structural)]
pub enum SignatureAlgorithm {
    RsaSha1,
    RsaSha256,
    Ed25519Sha256,
}

/// Signatures that must not verify (RFC 8301): rsa-sha1, and rsa-sha256
/// whose signature is shorter than 128 bytes, the mark of a key under 1024
/// bits.
pub fn is_insecure(algorithm: SignatureAlgorithm, signature_len: usize) -> (insecure: bool)
    ensures
        insecure == (algorithm == SignatureAlgorithm::RsaSha1 || (algorithm == SignatureAlgorithm::RsaSha256
            && signature_len < 128)),
{
    match algorithm {
        SignatureAlgorithm::RsaSha1 => true,
        SignatureAlgorithm::RsaSha256 => signature_len < 128,
        SignatureAlgorithm::Ed25519Sha256 => false,
    }
}

} // verus!
