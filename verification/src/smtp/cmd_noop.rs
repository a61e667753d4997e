use vstd::prelude::*;
use vstd::string::StringSliceAdditionalSpecFns;

verus! {

pub const NOOP_OK: &'static str = "250 2.0.0 OK\r\n";

/// The reply to NOOP: a positive completion that changes nothing.
pub fn noop_reply() -> (reply: &'static [u8])
    ensures
        reply@ == NOOP_OK.spec_bytes(),
{
    NOOP_OK.as_bytes()
}

} // verus!
