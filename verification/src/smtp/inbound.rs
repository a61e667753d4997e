use vstd::prelude::*;
use vstd::string::StringSliceAdditionalSpecFns;
use vstd::utf8::encode_utf8;
use crate::sieve::message::slice_chars;
use crate::smtp::dsn::{date_text, spec_date, Rfc822Date};
use crate::smtp::loop_detect::{check, spec_received_count, LoopConfig, LoopDecision, DEFAULT_MAX_RECEIVED, LOOPING};
use crate::smtp::dkim_verify::DkimVerdict;
use crate::smtp::dmarc::{DmarcAction, DmarcDecision, DmarcPolicy, DmarcResult};
use crate::smtp::spf::SpfVerdict;
use crate::smtp::spam_decision::{decide, spec_decision, AuthSummary, ReputationSummary, SpamDecision};
use crate::text::{char_of_ascii, chars_of, copy_bytes, last_index_of, lemma_last_index_of, push_char, push_str, rfind_char, string_of_chars};

verus! {

/// What the checks on an inbound message concluded, and the
/// Authentication-Results value that records them.
pub struct GauntletOutcome {
    pub verdict: SpamDecision,
    pub auth_results: String,
}

/// After the authentication checks: a message that has looped past the hop
/// limit is deferred; otherwise the spam decision rules on it (the client of
/// an inbound session is never authenticated).
pub fn gauntlet_verdict(raw_message: &[u8], auth: &AuthSummary, reputation: &ReputationSummary) -> (verdict: SpamDecision)
    ensures
        spec_received_count(raw_message@) > DEFAULT_MAX_RECEIVED ==> (verdict matches SpamDecision::Defer(r) && r@
            == LOOPING.spec_bytes()),
        spec_received_count(raw_message@) <= DEFAULT_MAX_RECEIVED ==> spec_decision(false, *auth, *reputation, verdict),
{
    match check(raw_message, LoopConfig::default()) {
        LoopDecision::Reject(reply) => SpamDecision::Defer(reply),
        LoopDecision::Allow => decide(false, auth, reputation),
    }
}

/// The domain after the last `@` of an address, as written; none when there
/// is no `@` or nothing follows it.
pub open spec fn spec_domain_of(address: Seq<char>) -> Option<Seq<char>> {
    let at = last_index_of(address, '@');
    if at < 0 || at + 1 == address.len() {
        None
    } else {
        Some(address.subrange(at + 1, address.len() as int))
    }
}

pub fn domain_of(address: &str) -> (domain: Option<String>)
    ensures
        match spec_domain_of(address@) {
            Some(d) => domain matches Some(s) && s@ == d,
            None => domain is None,
        },
{
    let chars = chars_of(address);
    proof {
        lemma_last_index_of(chars@, '@');
    }
    match rfind_char(chars.as_slice(), '@') {
        Some(at) => {
            if at == chars.len() - 1 {
                None
            } else {
                let n = chars.len();
                let tail = slice_chars(&chars, at + 1, n);
                Some(string_of_chars(tail.as_slice()))
            }
        },
        None => None,
    }
}

/// The domain DMARC aligns with: that of the envelope sender, else the
/// client's greeting.
pub fn alignment_domain(mail_from: &str, helo_domain: &str) -> (domain: String)
    ensures
        domain@ == match spec_domain_of(mail_from@) {
            Some(d) => d,
            None => helo_domain@,
        },
{
    match domain_of(mail_from) {
        Some(d) => d,
        None => {
            let v = chars_of(helo_domain);
            string_of_chars(v.as_slice())
        },
    }
}

/// A header field put in front of a message: `field: value` and CRLF.
pub open spec fn spec_prepend_header(field: Seq<u8>, value: Seq<u8>, raw: Seq<u8>) -> Seq<u8> {
    field + seq![58u8, 32u8] + value + seq![13u8, 10u8] + raw
}

pub fn prepend_header(field: &str, value: &str, raw_message: &[u8]) -> (out: Vec<u8>)
    ensures
        out@ == spec_prepend_header(field.spec_bytes(), value.spec_bytes(), raw_message@),
{
    let mut out: Vec<u8> = copy_bytes(field.as_bytes());
    out.push(58u8);
    out.push(32u8);
    let mut v = copy_bytes(value.as_bytes());
    out.append(&mut v);
    out.push(13u8);
    out.push(10u8);
    let mut r = copy_bytes(raw_message);
    out.append(&mut r);
    out
}

/// An upper-case hexadecimal digit.
pub open spec fn upper_hex_digit(d: nat) -> char {
    if d < 10 {
        ((48 + d) as u32) as char
    } else {
        ((55 + d) as u32) as char
    }
}

/// The upper-case hexadecimal numeral of a number, without leading zeros.
pub open spec fn upper_hex(n: nat) -> Seq<char>
    decreases n,
{
    if n < 16 {
        seq![upper_hex_digit(n)]
    } else {
        upper_hex(n / 16).push(upper_hex_digit(n % 16))
    }
}

fn upper_hex_string(n: u64) -> (s: String)
    ensures
        s@ == upper_hex(n as nat),
    decreases n,
{
    let d = n % 16;
    let c = if d < 10 {
        char_of_ascii((48 + d) as u32)
    } else {
        char_of_ascii((55 + d) as u32)
    };
    if n < 16 {
        let mut s = String::new();
        push_char(&mut s, c);
        s
    } else {
        let mut s = upper_hex_string(n / 16);
        push_char(&mut s, c);
        s
    }
}

/// The Received header of a hop: the client's greeting and address, this
/// host, ESMTPS over TLS or ESMTP, the id in upper-case hexadecimal, and the
/// date of `now`.
pub open spec fn received_text(helo: Seq<char>, remote_ip: Seq<char>, host: Seq<char>, tls: bool, id: u64, now: u64) -> Seq<char> {
    "Received: from "@ + helo + " ["@ + remote_ip + "]\r\n\tby "@ + host + " (IRIXMAIL) with "@ + (if tls {
        "ESMTPS"@
    } else {
        "ESMTP"@
    }) + " id "@ + upper_hex(id as nat) + ";\r\n\t"@ + date_text(spec_date(now)) + "\r\n"@
}

pub fn build_received(helo: &str, remote_ip: &str, host: &str, tls: bool, id: u64, now: u64) -> (out: Vec<u8>)
    ensures
        out@ == encode_utf8(received_text(helo@, remote_ip@, host@, tls, id, now)),
{
    let date = Rfc822Date::from_timestamp(now).to_string();
    let mut s = String::new();
    push_str(&mut s, "Received: from ");
    push_str(&mut s, helo);
    push_str(&mut s, " [");
    push_str(&mut s, remote_ip);
    push_str(&mut s, "]\r\n\tby ");
    push_str(&mut s, host);
    push_str(&mut s, " (IRIXMAIL) with ");
    if tls {
        push_str(&mut s, "ESMTPS");
    } else {
        push_str(&mut s, "ESMTP");
    }
    push_str(&mut s, " id ");
    let hex = upper_hex_string(id);
    push_str(&mut s, hex.as_str());
    push_str(&mut s, ";\r\n\t");
    push_str(&mut s, date.as_str());
    push_str(&mut s, "\r\n");
    assert(s@ =~= received_text(helo@, remote_ip@, host@, tls, id, now));
    copy_bytes(s.as_str().as_bytes())
}

/// The result keywords an Authentication-Results clause can carry.
#[derive(Clone, Copy, Debug, PartialEq, Eq, Structural)]
pub enum MethodResult {
    Pass,
    Fail,
    SoftFail,
    Neutral,
    Unknown,
    TempError,
    PermError,
}

/// The clause result of an SPF check.
pub fn spf_method(result: SpfVerdict) -> (method: MethodResult)
    ensures
        method == match result {
            SpfVerdict::Pass => MethodResult::Pass,
            SpfVerdict::Fail => MethodResult::Fail,
            SpfVerdict::SoftFail => MethodResult::SoftFail,
            SpfVerdict::Neutral => MethodResult::Neutral,
            SpfVerdict::Unknown => MethodResult::Unknown,
            SpfVerdict::TempError => MethodResult::TempError,
            SpfVerdict::PermError => MethodResult::PermError,
        },
{
    match result {
        SpfVerdict::Pass => MethodResult::Pass,
        SpfVerdict::Fail => MethodResult::Fail,
        SpfVerdict::SoftFail => MethodResult::SoftFail,
        SpfVerdict::Neutral => MethodResult::Neutral,
        SpfVerdict::Unknown => MethodResult::Unknown,
        SpfVerdict::TempError => MethodResult::TempError,
        SpfVerdict::PermError => MethodResult::PermError,
    }
}

/// The clause result of a DKIM (or ARC) verdict.
pub fn dkim_method(verdict: DkimVerdict) -> (method: MethodResult)
    ensures
        method == match verdict {
            DkimVerdict::Pass => MethodResult::Pass,
            DkimVerdict::Neutral => MethodResult::Neutral,
            DkimVerdict::Fail => MethodResult::Fail,
            DkimVerdict::PermError => MethodResult::PermError,
            DkimVerdict::TempError => MethodResult::TempError,
            DkimVerdict::Unknown => MethodResult::Unknown,
        },
{
    match verdict {
        DkimVerdict::Pass => MethodResult::Pass,
        DkimVerdict::Neutral => MethodResult::Neutral,
        DkimVerdict::Fail => MethodResult::Fail,
        DkimVerdict::PermError => MethodResult::PermError,
        DkimVerdict::TempError => MethodResult::TempError,
        DkimVerdict::Unknown => MethodResult::Unknown,
    }
}

/// The clause result of a DMARC evaluation.
pub fn dmarc_method(result: DmarcResult) -> (method: MethodResult)
    ensures
        method == match result {
            DmarcResult::Pass => MethodResult::Pass,
            DmarcResult::Fail => MethodResult::Fail,
            DmarcResult::TempError => MethodResult::TempError,
            DmarcResult::PermError => MethodResult::PermError,
            DmarcResult::Unknown => MethodResult::Unknown,
        },
{
    match result {
        DmarcResult::Pass => MethodResult::Pass,
        DmarcResult::Fail => MethodResult::Fail,
        DmarcResult::TempError => MethodResult::TempError,
        DmarcResult::PermError => MethodResult::PermError,
        DmarcResult::Unknown => MethodResult::Unknown,
    }
}

/// The DMARC decision on a message that could not be parsed: nothing
/// evaluated, nothing asked.
pub fn unevaluated_dmarc() -> (decision: DmarcDecision)
    ensures
        decision.domain@.len() == 0,
        decision.result == DmarcResult::Unknown,
        decision.policy == DmarcPolicy::Unspecified,
        decision.action == DmarcAction::Pass,
        !decision.temp_error,
{
    DmarcDecision {
        domain: String::new(),
        result: DmarcResult::Unknown,
        policy: DmarcPolicy::Unspecified,
        action: DmarcAction::Pass,
        temp_error: false,
    }
}

} // verus!
