use vstd::prelude::*;
use vstd::string::StringSliceAdditionalSpecFns;
use crate::smtp::parser::MailParams;

verus! {

pub const NEED_GREETING: &'static str = "503 5.5.1 Send EHLO/HELO first\r\n";
pub const NESTED_MAIL: &'static str = "503 5.5.1 Sender already given\r\n";
pub const TOO_LARGE: &'static str = "552 5.3.4 Message size exceeds the fixed limit\r\n";
pub const ACCEPTED: &'static str = "250 2.1.0 Sender OK\r\n";

#[derive(Clone, Debug, Default, PartialEq, Eq)]
pub struct ReversePath {
    pub address: String,
    pub smtputf8: bool,
}

#[derive(Clone, Debug, PartialEq, Eq)]
pub enum MailOutcome {
    Reject(&'static [u8]),
    Accept { path: ReversePath, reply: &'static [u8] },
}

/// The size check of MAIL: a declared size over a set limit is refused; a
/// size of zero (not declared) or a limit of zero (none set) passes.
pub open spec fn exceeds_limit(size: usize, max_message_size: usize) -> bool {
    size > 0 && max_message_size > 0 && size > max_message_size
}

/// Answers MAIL FROM: refused before a greeting, refused while a sender is
/// already pending, refused when the declared size exceeds the limit, and
/// otherwise accepted with the sender's address and SMTPUTF8 flag.
pub fn mail_reply(
    params: &MailParams,
    greeted: bool,
    sender_pending: bool,
    max_message_size: usize,
) -> (outcome: MailOutcome)
    ensures
        !greeted ==> (outcome matches MailOutcome::Reject(r) && r@ == NEED_GREETING.spec_bytes()),
        greeted && sender_pending ==> (outcome matches MailOutcome::Reject(r) && r@
            == NESTED_MAIL.spec_bytes()),
        greeted && !sender_pending && exceeds_limit(params.size, max_message_size)
            ==> (outcome matches MailOutcome::Reject(r) && r@ == TOO_LARGE.spec_bytes()),
        greeted && !sender_pending && !exceeds_limit(params.size, max_message_size)
            ==> (outcome matches MailOutcome::Accept { path, reply } && path.address@
            == params.address@ && path.smtputf8 == params.smtputf8 && reply@
            == ACCEPTED.spec_bytes()),
{
    if !greeted {
        return MailOutcome::Reject(NEED_GREETING.as_bytes());
    }
    if sender_pending {
        return MailOutcome::Reject(NESTED_MAIL.as_bytes());
    }
    if params.size > 0 && max_message_size > 0 && params.size > max_message_size {
        return MailOutcome::Reject(TOO_LARGE.as_bytes());
    }
    MailOutcome::Accept {
        path: ReversePath { address: params.address.clone(), smtputf8: params.smtputf8 },
        reply: ACCEPTED.as_bytes(),
    }
}

} // verus!
