use vstd::prelude::*;
use vstd::string::StringSliceAdditionalSpecFns;
use crate::smtp::parser::RcptParams;

verus! {

pub const NEED_MAIL: &'static str = "503 5.5.1 Send MAIL before RCPT\r\n";
pub const TOO_MANY: &'static str = "452 4.5.3 Too many recipients\r\n";
pub const NO_MAILBOX: &'static str = "550 5.1.1 Mailbox does not exist\r\n";
pub const RELAY_DENIED: &'static str = "550 5.7.1 Relaying not allowed\r\n";
pub const ACCEPTED: &'static str = "250 2.1.5 Recipient OK\r\n";

pub const DEFAULT_MAX_RECIPIENTS: usize = 100;

#[derive(Clone, Copy, Debug, PartialEq, Eq)]
pub enum Recipient {
    Local,
    LocalUnknown,
    Remote,
}

#[derive(Clone, Debug, Default, PartialEq, Eq)]
pub struct ForwardPath {
    pub address: String,
}

#[derive(Clone, Debug, PartialEq, Eq)]
pub enum RcptOutcome {
    Reject(&'static [u8]),
    Accept { path: ForwardPath, reply: &'static [u8] },
}

/// The recipient cap of RCPT: a cap of zero means no cap.
pub open spec fn list_full(accepted_count: usize, max_recipients: usize) -> bool {
    max_recipients > 0 && accepted_count >= max_recipients
}

/// Whether a recipient of the given kind may be accepted: a local mailbox
/// always, a remote one only for an authenticated session (no open relay).
pub open spec fn may_accept(recipient: Recipient, authenticated: bool) -> bool {
    match recipient {
        Recipient::Local => true,
        Recipient::LocalUnknown => false,
        Recipient::Remote => authenticated,
    }
}

/// Answers RCPT TO.
pub fn rcpt_reply(
    params: &RcptParams,
    sender_pending: bool,
    recipient: Recipient,
    authenticated: bool,
    accepted_count: usize,
    max_recipients: usize,
) -> (outcome: RcptOutcome)
    ensures
        !sender_pending ==> (outcome matches RcptOutcome::Reject(r) && r@ == NEED_MAIL.spec_bytes()),
        sender_pending && list_full(accepted_count, max_recipients)
            ==> (outcome matches RcptOutcome::Reject(r) && r@ == TOO_MANY.spec_bytes()),
        sender_pending && !list_full(accepted_count, max_recipients) ==> {
            &&& recipient == Recipient::LocalUnknown ==> (outcome matches RcptOutcome::Reject(r)
                && r@ == NO_MAILBOX.spec_bytes())
            &&& (recipient == Recipient::Remote && !authenticated) ==> (outcome matches RcptOutcome::Reject(r)
                && r@ == RELAY_DENIED.spec_bytes())
            &&& may_accept(recipient, authenticated) ==> (outcome matches RcptOutcome::Accept {
                path,
                reply,
            } && path.address@ == params.address@ && reply@ == ACCEPTED.spec_bytes())},
{
    if !sender_pending {
        return RcptOutcome::Reject(NEED_MAIL.as_bytes());
    }
    if max_recipients > 0 && accepted_count >= max_recipients {
        return RcptOutcome::Reject(TOO_MANY.as_bytes());
    }
    match recipient {
        Recipient::Local => RcptOutcome::Accept {
            path: ForwardPath { address: params.address.clone() },
            reply: ACCEPTED.as_bytes(),
        },
        Recipient::LocalUnknown => RcptOutcome::Reject(NO_MAILBOX.as_bytes()),
        Recipient::Remote => {
            if authenticated {
                RcptOutcome::Accept {
                    path: ForwardPath { address: params.address.clone() },
                    reply: ACCEPTED.as_bytes(),
                }
            } else {
                RcptOutcome::Reject(RELAY_DENIED.as_bytes())
            }
        },
    }
}

/// No open relay: whatever the other inputs, an unauthenticated session never
/// has a remote recipient accepted.
pub proof fn lemma_no_open_relay()
    ensures
        !may_accept(Recipient::Remote, false),
{
}

} // verus!
