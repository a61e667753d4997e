use vstd::prelude::*;
use vstd::string::StringSliceAdditionalSpecFns;

verus! {

pub const RESET_OK: &'static str = "250 2.0.0 Reset OK\r\n";

/// The reply to RSET: a positive completion.
pub fn rset_reply() -> (reply: &'static [u8])
    ensures
        reply@ == RESET_OK.spec_bytes(),
{
    RESET_OK.as_bytes()
}

} // verus!
