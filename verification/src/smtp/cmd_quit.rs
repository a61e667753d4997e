use vstd::prelude::*;
use vstd::string::StringSliceAdditionalSpecFns;

verus! {

pub const QUIT_OK: &'static str = "221 2.0.0 Bye\r\n";

/// The reply to QUIT: a closing completion.
pub fn quit_reply() -> (reply: &'static [u8])
    ensures
        reply@ == QUIT_OK.spec_bytes(),
{
    QUIT_OK.as_bytes()
}

} // verus!
