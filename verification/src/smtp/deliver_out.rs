use vstd::prelude::*;
use crate::text::{decimal, decimal_digits, push_char, push_str};

verus! {

/// How one delivery attempt to one recipient ended.
#[derive(Clone, Debug, PartialEq, Eq)]
pub enum DeliveryAttempt {
    Delivered,
    Deferred(String),
    Bounced(String),
}

impl DeliveryAttempt {
    pub fn is_delivered(&self) -> (delivered: bool)
        ensures
            delivered == (*self is Delivered),
    {
        match self {
            DeliveryAttempt::Delivered => true,
            _ => false,
        }
    }

    /// A bounce is final; a deferral is retried.
    pub fn is_permanent(&self) -> (permanent: bool)
        ensures
            permanent == (*self is Bounced),
    {
        match self {
            DeliveryAttempt::Bounced(_) => true,
            _ => false,
        }
    }
}

/// Why a send to an exchange failed, as the SMTP client reports it: a reply
/// it did not expect, a refused login, a missing STARTTLS, or another fault
/// described by its text.
#[derive(Clone, Debug, PartialEq, Eq)]
pub enum SendFailure {
    UnexpectedReply { code: u16, message: String },
    AuthenticationFailed { code: u16, message: String },
    MissingStartTls,
    Other(String),
}

/// A reply as text: its code, a space and its message.
pub open spec fn reply_text(code: u16, message: Seq<char>) -> Seq<char> {
    decimal_digits(code as nat) + seq![' '] + message
}

fn reply_string(code: u16, message: &str) -> (text: String)
    ensures
        text@ == reply_text(code, message@),
{
    let mut text = decimal(code as u64);
    push_char(&mut text, ' ');
    push_str(&mut text, message);
    text
}

/// A reply of the 500 class bounces the recipient; any other defers it.
pub fn classify_response(code: u16, message: &str) -> (attempt: DeliveryAttempt)
    ensures
        500 <= code < 600 ==> (attempt matches DeliveryAttempt::Bounced(t) && t@ == reply_text(code, message@)),
        !(500 <= code < 600) ==> (attempt matches DeliveryAttempt::Deferred(t) && t@ == reply_text(code, message@)),
{
    let text = reply_string(code, message);
    if 500 <= code && code < 600 {
        DeliveryAttempt::Bounced(text)
    } else {
        DeliveryAttempt::Deferred(text)
    }
}

/// The text of a STARTTLS that an exchange withdrew.
pub open spec fn withdrew_starttls() -> Seq<char> {
    "exchange withdrew STARTTLS"@
}

/// Classifies a failed send: an unexpected reply by its code; everything
/// else, a refused login included, is transient.
pub fn classify(failure: SendFailure) -> (attempt: DeliveryAttempt)
    ensures
        match failure {
            SendFailure::UnexpectedReply { code, message } => if 500 <= code < 600 {
                attempt matches DeliveryAttempt::Bounced(t) && t@ == reply_text(code, message@)
            } else {
                attempt matches DeliveryAttempt::Deferred(t) && t@ == reply_text(code, message@)
            },
            SendFailure::AuthenticationFailed { code, message } => attempt matches DeliveryAttempt::Deferred(t) && t@
                == reply_text(code, message@),
            SendFailure::MissingStartTls => attempt matches DeliveryAttempt::Deferred(t) && t@ == withdrew_starttls(),
            SendFailure::Other(text) => attempt matches DeliveryAttempt::Deferred(t) && t@ == text@,
        },
{
    match failure {
        SendFailure::UnexpectedReply { code, message } => classify_response(code, message.as_str()),
        SendFailure::AuthenticationFailed { code, message } => DeliveryAttempt::Deferred(reply_string(code, message.as_str())),
        SendFailure::MissingStartTls => DeliveryAttempt::Deferred(String::from_str("exchange withdrew STARTTLS")),
        SendFailure::Other(text) => DeliveryAttempt::Deferred(text),
    }
}

} // verus!
