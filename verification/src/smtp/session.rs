use vstd::prelude::*;
use vstd::string::StringSliceAdditionalSpecFns;
use crate::sieve::message::{lossy_utf8, utf8_lossy};
use crate::text::{chars_of, last_index_of, lower_chars, rfind_char, string_of_chars, to_lower_string, utf8_string};
use crate::sieve::message::slice_chars;
use crate::text::{bytes_eq, copy_bytes, str_eq, str_eq_ignore_case};
use crate::sieve::message::trim;
use crate::smtp::parser::{parse_command, spec_parse_command, Command, MailParams, RcptParams, ParseError};
use crate::smtp::cmd_mail::{mail_reply, MailOutcome, exceeds_limit, NEED_GREETING, NESTED_MAIL};
use crate::smtp::cmd_mail::TOO_LARGE as MAIL_TOO_LARGE;
use crate::smtp::cmd_mail::ACCEPTED as SENDER_OK;
use crate::smtp::cmd_rcpt::{rcpt_reply, RcptOutcome, Recipient, DEFAULT_MAX_RECIPIENTS, NEED_MAIL, TOO_MANY, NO_MAILBOX, RELAY_DENIED, list_full};
use crate::smtp::cmd_rcpt::ACCEPTED as RECIPIENT_OK;
use crate::smtp::cmd_data::{data_reply, DataOutcome, BodyReceiver, BodyStep, READY, NEED_RCPT as DATA_NEED_RCPT, is_terminator, unstuffed};
use crate::smtp::cmd_data::TOO_LARGE as BODY_TOO_LARGE;
use crate::smtp::cmd_bdat::{bdat_reply, chunk_disposal, BdatOutcome, ChunkDisposal, ChunkReceiver, ChunkStep, CHUNK_OK, declared_too_large};
use crate::smtp::cmd_bdat::NEED_RCPT as BDAT_NEED_RCPT;
use crate::smtp::cmd_bdat::TOO_LARGE as CHUNK_TOO_LARGE;
use crate::smtp::cmd_ehlo::{ehlo_response, helo_response, helo_text, spec_capabilities, spec_mechanisms, ehlo_rendered, EhloContext, DEFAULT_MAX_MESSAGE_SIZE};
use crate::smtp::cmd_auth::{spec_begin, SaslExchange, SaslStart, success_reply, credentials_invalid_reply, too_many_attempts_reply, trimmed, SUCCESS, CREDENTIALS_INVALID, TOO_MANY_ATTEMPTS};
use crate::smtp::sub_auth::{guard_submission, SubmissionGate, AUTH_REQUIRED};
use crate::smtp::cmd_rset::RESET_OK;
use crate::smtp::cmd_noop::{noop_reply, NOOP_OK};
use crate::smtp::cmd_quit::{quit_reply, QUIT_OK};
use vstd::utf8::{decode_utf8, encode_utf8, valid_utf8};
use crate::smtp::inbound::{build_received, prepend_header, received_text, spec_prepend_header};
use crate::smtp::cmd_data::{mailbox_full_reply, MAILBOX_FULL};
use crate::smtp::spam_decision::{Disposition, SpamDecision};

verus! {

/// The SMTP verb of a command line.
#[derive(Clone, Copy, Debug, PartialEq, Eq, Structural)]
pub enum Verb {
    Ehlo,
    Helo,
    Mail,
    Rcpt,
    Data,
    Bdat,
    StartTls,
    Auth,
    Rset,
    Noop,
    Quit,
    Unknown,
}

/// How far a session has come.
#[derive(Clone, Copy, Debug, PartialEq, Eq, Structural)]
pub enum Stage {
    Connected,
    Greeted,
    Mail,
    Rcpt,
}

/// Which face a session serves: mail exchange or submission.
#[derive(Clone, Copy, Debug, PartialEq, Eq, Structural)]
pub enum SmtpMode {
    Inbound,
    Submission,
}

/// How a session ended: closed, or handed over for a TLS upgrade.
#[derive(Clone, Copy, Debug, PartialEq, Eq, Structural)]
pub enum Flow {
    Close,
    Upgrade,
}

/// What a session knows of its client and the transaction in progress.
#[derive(Debug, Default)]
pub struct SessionData {
    pub helo_domain: String,
    pub mail_from: Option<String>,
    pub smtputf8: bool,
    pub rcpt_to: Vec<String>,
    pub is_tls: bool,
    pub authenticated: bool,
}

impl SessionData {
    /// Forgets the sender, the SMTPUTF8 flag and the recipients; the greeting
    /// and the channel stay.
    pub fn reset_transaction(&mut self)
        ensures
            final(self).mail_from is None,
            !final(self).smtputf8,
            final(self).rcpt_to@.len() == 0,
            final(self).helo_domain == old(self).helo_domain,
            final(self).is_tls == old(self).is_tls,
            final(self).authenticated == old(self).authenticated,
    {
        self.mail_from = None;
        self.smtputf8 = false;
        self.rcpt_to = Vec::new();
    }
}

/// A message taken in by a session.
#[derive(Debug, Default)]
pub struct AcceptedMessage {
    pub mail_from: Option<String>,
    pub rcpt_to: Vec<String>,
    pub body: Vec<u8>,
}

/// A line without its trailing carriage return.
pub open spec fn spec_strip_crlf(line: Seq<u8>) -> Seq<u8> {
    if line.len() > 0 && line.last() == 13 {
        line.drop_last()
    } else {
        line
    }
}

pub fn strip_crlf(line: &[u8]) -> (end: usize)
    ensures
        end <= line@.len(),
        line@.subrange(0, end as int) == spec_strip_crlf(line@),
{
    let mut end = line.len();
    if end > 0 && line[end - 1] == 13u8 {
        end -= 1;
    }
    assert(line@.subrange(0, end as int) =~= spec_strip_crlf(line@));
    end
}

/// A command line ended by CRLF, whatever its own ending.
pub fn terminated(line: &[u8]) -> (buf: Vec<u8>)
    ensures
        buf@ == spec_strip_crlf(line@) + seq![13u8, 10u8],
{
    let end = strip_crlf(line);
    let mut buf: Vec<u8> = Vec::new();
    let mut i: usize = 0;
    while i < end
        invariant
            end <= line@.len(),
            i <= end,
            buf@ == line@.subrange(0, i as int),
        decreases end - i,
    {
        buf.push(line[i]);
        i += 1;
        assert(buf@ =~= line@.subrange(0, i as int));
    }
    buf.push(13u8);
    buf.push(10u8);
    assert(buf@ =~= spec_strip_crlf(line@) + seq![13u8, 10u8]);
    buf
}

/// A space or a tab.
pub open spec fn is_blank(b: u8) -> bool {
    b == 32 || b == 9
}

/// The first position at or after `i` whose byte satisfies being blank (or
/// not, by `blank`), or the end.
pub open spec fn scan(s: Seq<u8>, i: int, blank: bool) -> int
    decreases s.len() - i,
{
    if i >= s.len() || is_blank(s[i]) == blank {
        i
    } else {
        scan(s, i + 1, blank)
    }
}

proof fn lemma_scan(s: Seq<u8>, i: int, blank: bool)
    requires
        0 <= i <= s.len(),
    ensures
        i <= scan(s, i, blank) <= s.len(),
    decreases s.len() - i,
{
    if i < s.len() && is_blank(s[i]) != blank {
        lemma_scan(s, i + 1, blank);
    }
}

fn scan_exec(s: &[u8], from: usize, to: usize, blank: bool) -> (r: usize)
    requires
        from <= to == s@.len(),
    ensures
        r == scan(s@, from as int, blank),
{
    let mut i = from;
    while i < to && ((s[i] == 32u8 || s[i] == 9u8) != blank)
        invariant
            from <= i <= to == s@.len(),
            scan(s@, from as int, blank) == scan(s@, i as int, blank),
        decreases to - i,
    {
        i += 1;
    }
    i
}

/// The argument of HELO or EHLO: after the first blank of the line (without
/// its CR), the first run of non-blank bytes, decoded lossily; empty when
/// the line has no blank.
pub open spec fn spec_helo_argument(line: Seq<u8>) -> Seq<char> {
    let t = spec_strip_crlf(line);
    let split = scan(t, 0, true);
    if split >= t.len() {
        Seq::empty()
    } else {
        let start = scan(t, split + 1, false);
        let end = scan(t, start, true);
        lossy_utf8(t.subrange(start, end))
    }
}

pub fn helo_argument(line: &[u8]) -> (arg: String)
    ensures
        arg@ == spec_helo_argument(line@),
{
    let end = strip_crlf(line);
    let mut t: Vec<u8> = Vec::new();
    let mut i: usize = 0;
    while i < end
        invariant
            end <= line@.len(),
            i <= end,
            t@ == line@.subrange(0, i as int),
        decreases end - i,
    {
        t.push(line[i]);
        i += 1;
        assert(t@ =~= line@.subrange(0, i as int));
    }
    let n = t.len();
    let split = scan_exec(t.as_slice(), 0, n, true);
    if split >= n {
        return String::new();
    }
    proof {
        lemma_scan(t@, split + 1, false);
    }
    let start = scan_exec(t.as_slice(), split + 1, n, false);
    proof {
        lemma_scan(t@, start as int, true);
    }
    let stop = scan_exec(t.as_slice(), start, n, true);
    let mut word: Vec<u8> = Vec::new();
    let mut k = start;
    while k < stop
        invariant
            start <= k <= stop <= n == t@.len(),
            word@ == t@.subrange(start as int, k as int),
        decreases stop - k,
    {
        word.push(t[k]);
        k += 1;
        assert(word@ =~= t@.subrange(start as int, k as int));
    }
    utf8_lossy(word.as_slice())
}

/// ASCII upper-case mapping of a byte.
pub open spec fn upper_byte(b: u8) -> u8 {
    if 97 <= b <= 122 { (b - 32) as u8 } else { b }
}

/// The bytes of a line up to its first blank, CR or LF.
pub open spec fn first_word_end(line: Seq<u8>, i: int) -> int
    decreases line.len() - i,
{
    if i >= line.len() || line[i] == 32 || line[i] == 9 || line[i] == 13 || line[i] == 10 {
        i
    } else {
        first_word_end(line, i + 1)
    }
}

/// The first word of a line, upper-cased.
pub open spec fn keyword(line: Seq<u8>) -> Seq<u8> {
    line.subrange(0, first_word_end(line, 0)).map_values(|b: u8| upper_byte(b))
}

/// The verb named by the first word of a line, in any case; a word that is
/// empty, longer than eight bytes or no known verb is `Unknown`.
pub open spec fn spec_verb(line: Seq<u8>) -> Verb {
    let end = first_word_end(line, 0);
    let word = keyword(line);
    if end == 0 || end > 8 {
        Verb::Unknown
    } else if word == "EHLO".spec_bytes() {
        Verb::Ehlo
    } else if word == "HELO".spec_bytes() {
        Verb::Helo
    } else if word == "MAIL".spec_bytes() {
        Verb::Mail
    } else if word == "RCPT".spec_bytes() {
        Verb::Rcpt
    } else if word == "DATA".spec_bytes() {
        Verb::Data
    } else if word == "BDAT".spec_bytes() {
        Verb::Bdat
    } else if word == "STARTTLS".spec_bytes() {
        Verb::StartTls
    } else if word == "AUTH".spec_bytes() {
        Verb::Auth
    } else if word == "RSET".spec_bytes() {
        Verb::Rset
    } else if word == "NOOP".spec_bytes() {
        Verb::Noop
    } else if word == "QUIT".spec_bytes() {
        Verb::Quit
    } else {
        Verb::Unknown
    }
}

proof fn lemma_first_word_end(line: Seq<u8>, i: int)
    requires
        0 <= i <= line.len(),
    ensures
        i <= first_word_end(line, i) <= line.len(),
    decreases line.len() - i,
{
    if i < line.len() && !(line[i] == 32 || line[i] == 9 || line[i] == 13 || line[i] == 10) {
        lemma_first_word_end(line, i + 1);
    }
}

impl Verb {
    /// The verb of a command line.
    pub fn from_line(line: &[u8]) -> (verb: Verb)
        ensures
            verb == spec_verb(line@),
    {
        let mut end: usize = 0;
        while end < line.len() && !(line[end] == 32u8 || line[end] == 9u8 || line[end] == 13u8 || line[end] == 10u8)
            invariant
                end <= line@.len(),
                first_word_end(line@, 0) == first_word_end(line@, end as int),
            decreases line@.len() - end,
        {
            end += 1;
        }
        if end == 0 || end > 8 {
            return Verb::Unknown;
        }
        let mut word: Vec<u8> = Vec::new();
        let mut i: usize = 0;
        while i < end
            invariant
                i <= end <= line@.len(),
                word@ == line@.subrange(0, i as int).map_values(|b: u8| upper_byte(b)),
            decreases end - i,
        {
            let b = line[i];
            let up: u8 = if 97u8 <= b && b <= 122u8 { b - 32 } else { b };
            word.push(up);
            i += 1;
            assert(word@ =~= line@.subrange(0, i as int).map_values(|b: u8| upper_byte(b)));
        }
        assert(word@ == keyword(line@));
        let w = word.as_slice();
        if bytes_eq(w, "EHLO".as_bytes()) {
            Verb::Ehlo
        } else if bytes_eq(w, "HELO".as_bytes()) {
            Verb::Helo
        } else if bytes_eq(w, "MAIL".as_bytes()) {
            Verb::Mail
        } else if bytes_eq(w, "RCPT".as_bytes()) {
            Verb::Rcpt
        } else if bytes_eq(w, "DATA".as_bytes()) {
            Verb::Data
        } else if bytes_eq(w, "BDAT".as_bytes()) {
            Verb::Bdat
        } else if bytes_eq(w, "STARTTLS".as_bytes()) {
            Verb::StartTls
        } else if bytes_eq(w, "AUTH".as_bytes()) {
            Verb::Auth
        } else if bytes_eq(w, "RSET".as_bytes()) {
            Verb::Rset
        } else if bytes_eq(w, "NOOP".as_bytes()) {
            Verb::Noop
        } else if bytes_eq(w, "QUIT".as_bytes()) {
            Verb::Quit
        } else {
            Verb::Unknown
        }
    }
}


// ---------------------------------------------------------------------------
// The command state machine

pub const GREETING: &'static str = "220 IRIXMAIL ESMTP ready\r\n";
pub const HOSTNAME: &'static str = "irixmail";
pub const MAX_MESSAGE_SIZE: usize = 25 * 1024 * 1024;
pub const UNRECOGNIZED: &'static str = "500 5.5.2 Command unrecognized\r\n";
pub const MAIL_SYNTAX: &'static str = "501 5.5.4 Syntax error in MAIL command\r\n";
pub const RCPT_SYNTAX: &'static str = "501 5.5.4 Syntax error in RCPT command\r\n";
pub const BDAT_SYNTAX: &'static str = "501 5.5.4 Syntax error in BDAT command\r\n";
pub const AUTH_SYNTAX: &'static str = "501 5.5.4 Syntax error in AUTH command\r\n";
pub const AUTH_CANCELLED: &'static str = "501 5.5.2 Authentication cancelled\r\n";
pub const STARTTLS_READY: &'static str = "220 2.0.0 Ready to start TLS\r\n";
pub const TLS_ACTIVE: &'static str = "503 5.5.1 TLS already active\r\n";
pub const UNROUTABLE: &'static str = "550 5.1.1 Mailbox unavailable\r\n";
pub const SUBMISSION_TEMPFAIL: &'static str = "451 4.3.0 Unable to accept the message right now, try again later\r\n";

/// What the connection must do after a command: write a reply and read the
/// next command; write and close; write and hand over for TLS; or do outside
/// work (a lookup, a read) and report back to the state machine.
pub enum Step {
    Reply(Vec<u8>),
    Close(Vec<u8>),
    Upgrade(Vec<u8>),
    /// Check that the authenticated account owns the sender, then call
    /// `accept_sender`.
    CheckSender(MailParams),
    /// Look the hosted recipient up, then call `recipient_classified`.
    ClassifyRecipient(RcptParams),
    /// Ask the greylist about the recipient, then call `admit_recipient`.
    CheckGreylist(String),
    /// Write the prompt and read the DATA body.
    ReadBody(Vec<u8>),
    /// Read and drop that many bytes, then write the reply.
    DrainChunk(usize, Vec<u8>),
    /// Read a chunk of that size, then call `chunk_received`.
    ReadChunk(usize, bool),
    /// Run the SASL exchange.
    Authenticate(SaslStart),
}

/// What a received BDAT chunk leads to: a reply, or the complete message and
/// its envelope.
pub enum ChunkResult {
    Reply(Vec<u8>),
    Complete { body: Vec<u8>, mail_from: Option<String>, rcpt_to: Vec<String> },
}

/// How the directory answered a login.
#[derive(Clone, Copy, Debug, PartialEq, Eq, Structural)]
pub enum LoginVerdict {
    Granted,
    Denied,
    Throttled,
}

/// The domain of an address: what follows its last `@`, lower-cased; none
/// when there is no `@` or nothing follows it.
pub open spec fn spec_domain_of(address: Seq<char>) -> Option<Seq<char>> {
    let at = last_index_of(address, '@');
    if at < 0 || at + 1 == address.len() {
        None
    } else {
        Some(lower_chars(address.subrange(at + 1, address.len() as int)))
    }
}

pub fn domain_of(address: &str) -> (domain: Option<String>)
    ensures
        match spec_domain_of(address@) {
            Some(d) => domain matches Some(s) && s@ == d,
            None => domain is None,
        },
{
    let chars = chars_of(address);
    proof {
        crate::text::lemma_last_index_of(chars@, '@');
    }
    match rfind_char(chars.as_slice(), '@') {
        Some(at) => {
            if at == chars.len() - 1 {
                None
            } else {
                let n = chars.len();
                let tail = slice_chars(&chars, at + 1, n);
                let text = string_of_chars(tail.as_slice());
                Some(to_lower_string(text.as_str()))
            }
        },
        None => None,
    }
}

/// Whether a domain is among the hosted ones.
pub open spec fn hosts(domains: Seq<String>, domain: Seq<char>) -> bool {
    exists|i: int| 0 <= i < domains.len() && (#[trigger] domains[i])@ == domain
}

/// A recipient is hosted when its domain is, or when it is a bare
/// `postmaster` (in any case, white space aside).
pub open spec fn spec_is_hosted(domains: Seq<String>, address: Seq<char>) -> bool {
    match spec_domain_of(address) {
        Some(d) => hosts(domains, d),
        None => lower_chars(trim(address)) == lower_chars("postmaster"@),
    }
}

/// The command a line parses to, with its own line ending replaced by CRLF.
pub open spec fn parsed(line: Seq<u8>) -> Result<Command, ParseError> {
    spec_parse_command(spec_strip_crlf(line) + seq![13u8, 10u8])
}

/// The address RCPT names: an empty path stands for the postmaster.
pub open spec fn rcpt_address(params: RcptParams) -> Seq<char> {
    if params.address@.len() == 0 {
        "postmaster"@
    } else {
        params.address@
    }
}

/// The EHLO reply of a session with this channel.
pub open spec fn ehlo_bytes(is_tls: bool, authenticated: bool) -> Seq<u8> {
    let ctx = EhloContext {
        hostname: HOSTNAME,
        max_message_size: DEFAULT_MAX_MESSAGE_SIZE,
        is_tls,
        authenticated,
    };
    ehlo_rendered(HOSTNAME@, spec_capabilities(ctx), spec_mechanisms(ctx), DEFAULT_MAX_MESSAGE_SIZE)
}

/// The state of an SMTP session between commands.
pub struct SessionState {
    pub stage: Stage,
    pub data: SessionData,
    pub mode: SmtpMode,
    pub local_domains: Vec<String>,
    pub chunks: Option<ChunkReceiver>,
}

impl SessionState {
    /// The BDAT chunks received so far, when a transfer is in progress.
    pub open spec fn pending_chunks(&self) -> Option<Seq<u8>> {
        match self.chunks {
            Some(r) => Some(r.message()),
            None => None,
        }
    }

    /// A chunk transfer never holds more than the message limit.
    pub open spec fn well_formed(&self) -> bool {
        match self.chunks {
            Some(r) => r.max_size() == MAX_MESSAGE_SIZE && r.well_formed(),
            None => true,
        }
    }

    /// The bytes of the transfer in progress (none when there is none).
    pub open spec fn accumulated(&self) -> nat {
        match self.pending_chunks() {
            Some(m) => m.len(),
            None => 0,
        }
    }

    /// Whether commands other than the greeting need authentication first.
    pub open spec fn gated(&self) -> bool {
        self.mode == SmtpMode::Submission && !self.data.authenticated
    }

    /// No sender, no SMTPUTF8 flag, no recipients.
    pub open spec fn cleared(&self) -> bool {
        self.data.mail_from is None && !self.data.smtputf8 && self.data.rcpt_to@.len() == 0
    }

    /// The greeting, the channel, the face and the hosted domains are those of
    /// `before`.
    pub open spec fn keeps_connection(&self, before: Self) -> bool {
        &&& self.data.helo_domain == before.data.helo_domain
        &&& self.data.is_tls == before.data.is_tls
        &&& self.data.authenticated == before.data.authenticated
        &&& self.mode == before.mode
        &&& self.local_domains@ == before.local_domains@
    }

    /// Nothing of `before` changed.
    pub open spec fn same_as(&self, before: Self) -> bool {
        &&& self.keeps_connection(before)
        &&& self.stage == before.stage
        &&& self.data.mail_from == before.data.mail_from
        &&& self.data.smtputf8 == before.data.smtputf8
        &&& self.data.rcpt_to@ == before.data.rcpt_to@
        &&& self.pending_chunks() == before.pending_chunks()
    }

    /// The transaction was dropped and the session is back at the greeting.
    pub open spec fn restarted(&self, before: Self) -> bool {
        &&& self.keeps_connection(before)
        &&& self.cleared()
        &&& self.stage == Stage::Greeted
    }

    /// A session just connected: nothing greeted, nothing pending.
    pub fn new(mode: SmtpMode, local_domains: Vec<String>, is_tls: bool) -> (state: Self)
        ensures
            state.well_formed(),
            state.stage == Stage::Connected,
            state.mode == mode,
            state.local_domains@ == local_domains@,
            state.data.helo_domain@.len() == 0,
            state.cleared(),
            state.data.is_tls == is_tls,
            !state.data.authenticated,
            state.pending_chunks() is None,
    {
        SessionState {
            stage: Stage::Connected,
            data: SessionData {
                helo_domain: String::new(),
                mail_from: None,
                smtputf8: false,
                rcpt_to: Vec::new(),
                is_tls,
                authenticated: false,
            },
            mode,
            local_domains,
            chunks: None,
        }
    }

    /// Whether an address is hosted here.
    pub fn is_hosted(&self, address: &str) -> (hosted: bool)
        ensures
            hosted == spec_is_hosted(self.local_domains@, address@),
    {
        match domain_of(address) {
            Some(domain) => {
                let mut i: usize = 0;
                while i < self.local_domains.len()
                    invariant
                        i <= self.local_domains@.len(),
                        spec_domain_of(address@) matches Some(d) && d == domain@,
                        forall|j: int| 0 <= j < i ==> (#[trigger] self.local_domains@[j])@ != domain@,
                    decreases self.local_domains@.len() - i,
                {
                    if str_eq(self.local_domains[i].as_str(), domain.as_str()) {
                        return true;
                    }
                    i += 1;
                }
                false
            },
            None => {
                let t = trimmed(address);
                str_eq_ignore_case(t.as_str(), "postmaster")
            },
        }
    }
}


/// What EHLO and HELO do to the session: the transaction and any chunk
/// transfer are dropped, the client's name is recorded, and the session is
/// greeted.
pub open spec fn greeted_by(before: SessionState, after: SessionState, line: Seq<u8>) -> bool {
    &&& after.cleared()
    &&& after.pending_chunks() is None
    &&& after.stage == Stage::Greeted
    &&& after.data.helo_domain@ == spec_helo_argument(line)
    &&& after.data.is_tls == before.data.is_tls
    &&& after.data.authenticated == before.data.authenticated
    &&& after.mode == before.mode
    &&& after.local_domains@ == before.local_domains@
}

/// A reply step with these bytes.
pub open spec fn replies(step: Step, bytes: Seq<u8>) -> bool {
    step matches Step::Reply(r) && r@ == bytes
}

/// MAIL FROM once any ownership check passed: refused before a greeting,
/// while a sender is pending, or over the size limit; otherwise the sender
/// opens a fresh transaction.
pub open spec fn sender_effect(before: SessionState, after: SessionState, params: MailParams, reply: Seq<u8>) -> bool {
    if before.stage == Stage::Connected {
        after.same_as(before) && reply == NEED_GREETING.spec_bytes()
    } else if before.data.mail_from is Some {
        after.same_as(before) && reply == NESTED_MAIL.spec_bytes()
    } else if exceeds_limit(params.size, MAX_MESSAGE_SIZE) {
        after.same_as(before) && reply == MAIL_TOO_LARGE.spec_bytes()
    } else {
        &&& after.keeps_connection(before)
        &&& after.stage == Stage::Mail
        &&& after.data.mail_from matches Some(a) && a@ == params.address@
        &&& after.data.smtputf8 == params.smtputf8
        &&& after.data.rcpt_to@.len() == 0
        &&& after.pending_chunks() is None
        &&& reply == SENDER_OK.spec_bytes()
    }
}

/// The MAIL command: the submission gate, the syntax, the ownership check
/// (submission only), then `sender_effect`.
pub open spec fn mail_effect(before: SessionState, after: SessionState, line: Seq<u8>, step: Step) -> bool {
    if before.gated() {
        after.same_as(before) && replies(step, AUTH_REQUIRED.spec_bytes())
    } else {
        match parsed(line) {
            Ok(Command::Mail { from }) => if before.mode == SmtpMode::Submission {
                after.same_as(before) && (step matches Step::CheckSender(p) && p == from)
            } else {
                step matches Step::Reply(r) && sender_effect(before, after, from, r@)
            },
            _ => after.same_as(before) && replies(step, MAIL_SYNTAX.spec_bytes()),
        }
    }
}

/// RCPT TO for a classified recipient: refused without a sender, past the
/// recipient cap, for an unknown local mailbox, or as a relay for an
/// unauthenticated session; otherwise the greylist is asked.
pub open spec fn recipient_effect(before: SessionState, address: Seq<char>, class: Recipient, step: Step) -> bool {
    if before.data.mail_from is None {
        replies(step, NEED_MAIL.spec_bytes())
    } else if list_full(before.data.rcpt_to.len(), DEFAULT_MAX_RECIPIENTS) {
        replies(step, TOO_MANY.spec_bytes())
    } else if class == Recipient::LocalUnknown {
        replies(step, NO_MAILBOX.spec_bytes())
    } else if class == Recipient::Remote && !before.data.authenticated {
        replies(step, RELAY_DENIED.spec_bytes())
    } else {
        step matches Step::CheckGreylist(a) && a@ == address
    }
}

/// The RCPT command: the submission gate, the syntax, then a hosted
/// recipient is looked up and any other one is remote.
pub open spec fn rcpt_effect(before: SessionState, after: SessionState, line: Seq<u8>, step: Step) -> bool {
    &&& after.same_as(before)
    &&& if before.gated() {
        replies(step, AUTH_REQUIRED.spec_bytes())
    } else {
        match parsed(line) {
            Ok(Command::Rcpt { to }) => if spec_is_hosted(before.local_domains@, rcpt_address(to)) {
                step matches Step::ClassifyRecipient(p) && p.address@ == rcpt_address(to)
            } else {
                recipient_effect(before, rcpt_address(to), Recipient::Remote, step)
            },
            _ => replies(step, RCPT_SYNTAX.spec_bytes()),
        }
    }
}

/// The DATA command: the body is read only once a recipient is accepted.
pub open spec fn data_effect(before: SessionState, after: SessionState, step: Step) -> bool {
    &&& after.same_as(before)
    &&& if before.gated() {
        replies(step, AUTH_REQUIRED.spec_bytes())
    } else if before.stage == Stage::Rcpt {
        step matches Step::ReadBody(r) && r@ == READY.spec_bytes()
    } else {
        replies(step, DATA_NEED_RCPT.spec_bytes())
    }
}

/// A refused chunk is drained when it fits the limit; a larger one closes
/// the connection.
pub open spec fn disposal_step(chunk_size: usize, reply: Seq<u8>, step: Step) -> bool {
    if chunk_size > MAX_MESSAGE_SIZE {
        step matches Step::Close(r) && r@ == reply
    } else {
        step matches Step::DrainChunk(n, r) && n == chunk_size && r@ == reply
    }
}

/// The BDAT command: refused (and its chunk drained or the connection
/// closed) without a recipient or past the limit, where the latter also
/// drops the transaction; otherwise the chunk is read.
pub open spec fn bdat_effect(before: SessionState, after: SessionState, line: Seq<u8>, step: Step) -> bool {
    if before.gated() {
        after.same_as(before) && replies(step, AUTH_REQUIRED.spec_bytes())
    } else {
        match parsed(line) {
            Ok(Command::Bdat { chunk_size, is_last }) => if before.stage != Stage::Rcpt {
                &&& after.keeps_connection(before)
                &&& after.stage == before.stage
                &&& after.data.mail_from == before.data.mail_from
                &&& after.data.smtputf8 == before.data.smtputf8
                &&& after.data.rcpt_to@ == before.data.rcpt_to@
                &&& after.pending_chunks() is None
                &&& disposal_step(chunk_size, BDAT_NEED_RCPT.spec_bytes(), step)
            } else if declared_too_large(chunk_size, before.accumulated() as usize, MAX_MESSAGE_SIZE) {
                &&& after.restarted(before)
                &&& after.pending_chunks() is None
                &&& disposal_step(chunk_size, CHUNK_TOO_LARGE.spec_bytes(), step)
            } else {
                after.same_as(before) && (step matches Step::ReadChunk(n, l) && n == chunk_size && l == is_last)
            },
            _ => after.same_as(before) && replies(step, BDAT_SYNTAX.spec_bytes()),
        }
    }
}

/// The AUTH command: the exchange starts as `SaslExchange::begin` says, on
/// this session's channel.
pub open spec fn auth_effect(before: SessionState, after: SessionState, line: Seq<u8>, step: Step) -> bool {
    &&& after.same_as(before)
    &&& match parsed(line) {
        Ok(Command::Auth { mechanism, initial_response }) => step matches Step::Authenticate(start)
            && spec_begin(mechanism, before.data.is_tls, before.data.authenticated, initial_response@, start),
        _ => replies(step, AUTH_SYNTAX.spec_bytes()),
    }
}

/// What one command line does to the session and what it asks of the
/// connection.
pub open spec fn command_effect(before: SessionState, after: SessionState, line: Seq<u8>, step: Step) -> bool {
    match spec_verb(line) {
        Verb::Ehlo => greeted_by(before, after, line) && replies(
            step,
            ehlo_bytes(before.data.is_tls, before.data.authenticated),
        ),
        Verb::Helo => greeted_by(before, after, line) && replies(step, encode_utf8(helo_text(HOSTNAME@))),
        Verb::Mail => mail_effect(before, after, line, step),
        Verb::Rcpt => rcpt_effect(before, after, line, step),
        Verb::Data => data_effect(before, after, step),
        Verb::Bdat => bdat_effect(before, after, line, step),
        Verb::StartTls => after.same_as(before) && if before.data.is_tls {
            replies(step, TLS_ACTIVE.spec_bytes())
        } else {
            step matches Step::Upgrade(r) && r@ == STARTTLS_READY.spec_bytes()
        },
        Verb::Auth => auth_effect(before, after, line, step),
        Verb::Rset => {
            &&& after.keeps_connection(before)
            &&& after.cleared()
            &&& after.pending_chunks() is None
            &&& after.stage == (if before.stage == Stage::Connected {
                Stage::Connected
            } else {
                Stage::Greeted
            })
            &&& replies(step, RESET_OK.spec_bytes())
        },
        Verb::Noop => after.same_as(before) && replies(step, NOOP_OK.spec_bytes()),
        Verb::Quit => after.same_as(before) && (step matches Step::Close(r) && r@ == QUIT_OK.spec_bytes()),
        Verb::Unknown => after.same_as(before) && replies(step, UNRECOGNIZED.spec_bytes()),
    }
}

/// The reply that a constant text makes.
fn reply_of(text: &'static [u8]) -> (step: Step)
    ensures
        replies(step, text@),
{
    Step::Reply(copy_bytes(text))
}

/// A line re-terminated by CRLF, parsed.
fn parse_line(line: &[u8]) -> (command: Result<Command, ParseError>)
    ensures
        command == parsed(line@),
{
    let buf = terminated(line);
    parse_command(buf.as_slice())
}

/// The step for a refused chunk.
fn disposal(chunk_size: usize, reply: &'static [u8]) -> (step: Step)
    ensures
        disposal_step(chunk_size, reply@, step),
{
    match chunk_disposal(chunk_size, MAX_MESSAGE_SIZE) {
        ChunkDisposal::Drain(n) => Step::DrainChunk(n, copy_bytes(reply)),
        ChunkDisposal::Close => Step::Close(copy_bytes(reply)),
    }
}

impl SessionState {
    /// The refusal of the submission gate, if any.
    fn gate(&self) -> (refusal: Option<&'static [u8]>)
        ensures
            self.gated() ==> (refusal matches Some(r) && r@ == AUTH_REQUIRED.spec_bytes()),
            !self.gated() ==> refusal is None,
    {
        match self.mode {
            SmtpMode::Submission => match guard_submission(self.data.authenticated) {
                SubmissionGate::Proceed => None,
                SubmissionGate::Reject(r) => Some(r),
            },
            SmtpMode::Inbound => None,
        }
    }

    fn greet(&mut self, line: &[u8])
        requires
            old(self).well_formed(),
        ensures
            final(self).well_formed(),
            greeted_by(*old(self), *final(self), line@),
    {
        self.data.reset_transaction();
        self.chunks = None;
        self.data.helo_domain = helo_argument(line);
        self.stage = Stage::Greeted;
    }

    /// Takes the sender once the ownership check (if any) is done; a refusal
    /// from that check is answered as it is.
    pub fn accept_sender(&mut self, params: MailParams, refusal: Option<Vec<u8>>) -> (reply: Vec<u8>)
        requires
            old(self).well_formed(),
        ensures
            final(self).well_formed(),
            refusal matches Some(r) ==> final(self).same_as(*old(self)) && reply@ == r@,
            refusal is None ==> sender_effect(*old(self), *final(self), params, reply@),
    {
        if let Some(r) = refusal {
            return r;
        }
        let greeted = self.stage != Stage::Connected;
        let pending = self.data.mail_from.is_some();
        match mail_reply(&params, greeted, pending, MAX_MESSAGE_SIZE) {
            MailOutcome::Reject(r) => copy_bytes(r),
            MailOutcome::Accept { path, reply } => {
                self.data.reset_transaction();
                self.chunks = None;
                self.data.mail_from = Some(path.address);
                self.data.smtputf8 = path.smtputf8;
                self.stage = Stage::Mail;
                copy_bytes(reply)
            },
        }
    }

    fn on_mail(&mut self, line: &[u8]) -> (step: Step)
        requires
            old(self).well_formed(),
        ensures
            final(self).well_formed(),
            mail_effect(*old(self), *final(self), line@, step),
    {
        if let Some(r) = self.gate() {
            return reply_of(r);
        }
        match parse_line(line) {
            Ok(Command::Mail { from }) => match self.mode {
                SmtpMode::Submission => Step::CheckSender(from),
                SmtpMode::Inbound => Step::Reply(self.accept_sender(from, None)),
            },
            _ => reply_of(MAIL_SYNTAX.as_bytes()),
        }
    }

    /// Answers RCPT for a recipient of the given kind.
    pub fn recipient_classified(&self, params: RcptParams, class: Recipient) -> (step: Step)
        ensures
            recipient_effect(*self, params.address@, class, step),
    {
        let pending = self.data.mail_from.is_some();
        match rcpt_reply(&params, pending, class, self.data.authenticated, self.data.rcpt_to.len(), DEFAULT_MAX_RECIPIENTS) {
            RcptOutcome::Reject(r) => reply_of(r),
            RcptOutcome::Accept { path, reply } => Step::CheckGreylist(path.address),
        }
    }

    /// Records a recipient the greylist let through, or answers with its
    /// deferral.
    pub fn admit_recipient(&mut self, address: String, defer: Option<Vec<u8>>) -> (reply: Vec<u8>)
        requires
            old(self).well_formed(),
        ensures
            final(self).well_formed(),
            defer matches Some(r) ==> final(self).same_as(*old(self)) && reply@ == r@,
            defer is None ==> {
                &&& final(self).keeps_connection(*old(self))
                &&& final(self).stage == Stage::Rcpt
                &&& final(self).data.mail_from == old(self).data.mail_from
                &&& final(self).data.smtputf8 == old(self).data.smtputf8
                &&& final(self).data.rcpt_to@ == old(self).data.rcpt_to@.push(address)
                &&& final(self).pending_chunks() == old(self).pending_chunks()
                &&& reply@ == RECIPIENT_OK.spec_bytes()
            },
    {
        match defer {
            Some(r) => r,
            None => {
                self.data.rcpt_to.push(address);
                self.stage = Stage::Rcpt;
                copy_bytes(RECIPIENT_OK.as_bytes())
            },
        }
    }

    fn on_rcpt(&mut self, line: &[u8]) -> (step: Step)
        requires
            old(self).well_formed(),
        ensures
            final(self).well_formed(),
            rcpt_effect(*old(self), *final(self), line@, step),
    {
        if let Some(r) = self.gate() {
            return reply_of(r);
        }
        match parse_line(line) {
            Ok(Command::Rcpt { to }) => {
                let mut params = to;
                if chars_of(params.address.as_str()).len() == 0 {
                    params.address = String::from_str("postmaster");
                    proof {
                        reveal_strlit("postmaster");
                    }
                }
                assert(params.address@ == rcpt_address(to));
                if self.is_hosted(params.address.as_str()) {
                    Step::ClassifyRecipient(params)
                } else {
                    self.recipient_classified(params, Recipient::Remote)
                }
            },
            _ => reply_of(RCPT_SYNTAX.as_bytes()),
        }
    }

    fn on_data(&mut self) -> (step: Step)
        requires
            old(self).well_formed(),
        ensures
            final(self).well_formed(),
            data_effect(*old(self), *final(self), step),
    {
        if let Some(r) = self.gate() {
            return reply_of(r);
        }
        match data_reply(self.stage == Stage::Rcpt) {
            DataOutcome::Reject(r) => reply_of(r),
            DataOutcome::Ready(r) => Step::ReadBody(copy_bytes(r)),
        }
    }

    /// Hands over the transaction of a received message: its sender and
    /// recipients; the session is back at the greeting.
    pub fn take_transaction(&mut self) -> (envelope: (Option<String>, Vec<String>))
        requires
            old(self).well_formed(),
        ensures
            final(self).well_formed(),
            envelope.0 == old(self).data.mail_from,
            envelope.1@ == old(self).data.rcpt_to@,
            final(self).restarted(*old(self)),
            final(self).pending_chunks() == old(self).pending_chunks(),
    {
        let mut from: Option<String> = None;
        std::mem::swap(&mut from, &mut self.data.mail_from);
        let mut rcpts: Vec<String> = Vec::new();
        std::mem::swap(&mut rcpts, &mut self.data.rcpt_to);
        self.data.reset_transaction();
        self.stage = Stage::Greeted;
        (from, rcpts)
    }

    /// Drops a transaction whose body went past the limit.
    pub fn abandon_transaction(&mut self) -> (reply: Vec<u8>)
        requires
            old(self).well_formed(),
        ensures
            final(self).well_formed(),
            final(self).restarted(*old(self)),
            final(self).pending_chunks() == old(self).pending_chunks(),
            reply@ == BODY_TOO_LARGE.spec_bytes(),
    {
        self.data.reset_transaction();
        self.stage = Stage::Greeted;
        copy_bytes(BODY_TOO_LARGE.as_bytes())
    }

    fn on_bdat(&mut self, line: &[u8]) -> (step: Step)
        requires
            old(self).well_formed(),
        ensures
            final(self).well_formed(),
            bdat_effect(*old(self), *final(self), line@, step),
    {
        if let Some(r) = self.gate() {
            return reply_of(r);
        }
        match parse_line(line) {
            Ok(Command::Bdat { chunk_size, is_last }) => {
                let accumulated: usize = match &self.chunks {
                    Some(r) => r.len(),
                    None => 0,
                };
                match bdat_reply(self.stage == Stage::Rcpt, chunk_size, accumulated, MAX_MESSAGE_SIZE, is_last) {
                    BdatOutcome::Reject(r) => {
                        self.chunks = None;
                        disposal(chunk_size, r)
                    },
                    BdatOutcome::TooLarge(r) => {
                        self.chunks = None;
                        self.data.reset_transaction();
                        self.stage = Stage::Greeted;
                        disposal(chunk_size, r)
                    },
                    BdatOutcome::Receive { chunk_size, is_last } => Step::ReadChunk(chunk_size, is_last),
                }
            },
            _ => reply_of(BDAT_SYNTAX.as_bytes()),
        }
    }

    /// Takes a BDAT chunk: past the limit the transaction is dropped; the
    /// last chunk completes the message; any other is kept.
    pub fn chunk_received(&mut self, chunk: &[u8], is_last: bool) -> (result: ChunkResult)
        requires
            old(self).well_formed(),
            chunk@.len() <= usize::MAX - MAX_MESSAGE_SIZE,
        ensures
            final(self).well_formed(),
            ({
                let so_far = match old(self).pending_chunks() {
                    Some(m) => m,
                    None => Seq::<u8>::empty(),
                };
                if so_far.len() + chunk@.len() > MAX_MESSAGE_SIZE {
                    &&& final(self).restarted(*old(self))
                    &&& final(self).pending_chunks() is None
                    &&& result matches ChunkResult::Reply(r) && r@ == CHUNK_TOO_LARGE.spec_bytes()
                } else if is_last {
                    &&& final(self).restarted(*old(self))
                    &&& final(self).pending_chunks() is None
                    &&& result matches ChunkResult::Complete { body, mail_from, rcpt_to }
                    &&& body@ == so_far + chunk@
                    &&& body@.len() <= MAX_MESSAGE_SIZE
                    &&& mail_from == old(self).data.mail_from
                    &&& rcpt_to@ == old(self).data.rcpt_to@
                } else {
                    &&& final(self).keeps_connection(*old(self))
                    &&& final(self).stage == old(self).stage
                    &&& final(self).data.mail_from == old(self).data.mail_from
                    &&& final(self).data.smtputf8 == old(self).data.smtputf8
                    &&& final(self).data.rcpt_to@ == old(self).data.rcpt_to@
                    &&& final(self).pending_chunks() == Some(so_far + chunk@)
                    &&& result matches ChunkResult::Reply(r) && r@ == CHUNK_OK.spec_bytes()
                }
            }),
    {
        let mut current: Option<ChunkReceiver> = None;
        std::mem::swap(&mut current, &mut self.chunks);
        let mut receiver = match current {
            Some(r) => r,
            None => ChunkReceiver::new(MAX_MESSAGE_SIZE),
        };
        match receiver.push_chunk(chunk, is_last) {
            ChunkStep::Accepted => {
                self.chunks = Some(receiver);
                ChunkResult::Reply(copy_bytes(CHUNK_OK.as_bytes()))
            },
            ChunkStep::Complete => {
                let body = receiver.into_message();
                let (mail_from, rcpt_to) = self.take_transaction();
                ChunkResult::Complete { body, mail_from, rcpt_to }
            },
            ChunkStep::TooLarge => {
                self.data.reset_transaction();
                self.stage = Stage::Greeted;
                ChunkResult::Reply(copy_bytes(CHUNK_TOO_LARGE.as_bytes()))
            },
        }
    }

    /// Answers the outcome of a login: a granted one authenticates the
    /// session.
    pub fn login_verdict(&mut self, verdict: LoginVerdict) -> (reply: Vec<u8>)
        requires
            old(self).well_formed(),
        ensures
            final(self).well_formed(),
            verdict == LoginVerdict::Granted ==> {
                &&& final(self).data.authenticated
                &&& final(self).data.helo_domain == old(self).data.helo_domain
                &&& final(self).data.is_tls == old(self).data.is_tls
                &&& final(self).mode == old(self).mode
                &&& final(self).local_domains@ == old(self).local_domains@
                &&& final(self).stage == old(self).stage
                &&& final(self).data.mail_from == old(self).data.mail_from
                &&& final(self).data.smtputf8 == old(self).data.smtputf8
                &&& final(self).data.rcpt_to@ == old(self).data.rcpt_to@
                &&& final(self).pending_chunks() == old(self).pending_chunks()
                &&& reply@ == SUCCESS.spec_bytes()
            },
            verdict == LoginVerdict::Denied ==> final(self).same_as(*old(self)) && reply@
                == CREDENTIALS_INVALID.spec_bytes(),
            verdict == LoginVerdict::Throttled ==> final(self).same_as(*old(self)) && reply@
                == TOO_MANY_ATTEMPTS.spec_bytes(),
    {
        match verdict {
            LoginVerdict::Granted => {
                self.data.authenticated = true;
                copy_bytes(success_reply())
            },
            LoginVerdict::Denied => copy_bytes(credentials_invalid_reply()),
            LoginVerdict::Throttled => copy_bytes(too_many_attempts_reply()),
        }
    }

    /// Handles one command line.
    pub fn command(&mut self, line: &[u8]) -> (step: Step)
        requires
            old(self).well_formed(),
        ensures
            final(self).well_formed(),
            command_effect(*old(self), *final(self), line@, step),
    {
        match Verb::from_line(line) {
            Verb::Ehlo => {
                let ghost before = *self;
                self.greet(line);
                let mut ctx = EhloContext::new(HOSTNAME);
                ctx.is_tls = self.data.is_tls;
                ctx.authenticated = self.data.authenticated;
                Step::Reply(ehlo_response(&ctx))
            },
            Verb::Helo => {
                self.greet(line);
                Step::Reply(helo_response(HOSTNAME))
            },
            Verb::Mail => self.on_mail(line),
            Verb::Rcpt => self.on_rcpt(line),
            Verb::Data => self.on_data(),
            Verb::Bdat => self.on_bdat(line),
            Verb::StartTls => if self.data.is_tls {
                reply_of(TLS_ACTIVE.as_bytes())
            } else {
                Step::Upgrade(copy_bytes(STARTTLS_READY.as_bytes()))
            },
            Verb::Auth => match parse_line(line) {
                Ok(Command::Auth { mechanism, initial_response }) => Step::Authenticate(
                    SaslExchange::begin(mechanism, self.data.is_tls, self.data.authenticated, initial_response.as_str()),
                ),
                _ => reply_of(AUTH_SYNTAX.as_bytes()),
            },
            Verb::Rset => {
                self.data.reset_transaction();
                self.chunks = None;
                if self.stage != Stage::Connected {
                    self.stage = Stage::Greeted;
                }
                reply_of(RESET_OK.as_bytes())
            },
            Verb::Noop => reply_of(noop_reply()),
            Verb::Quit => Step::Close(copy_bytes(quit_reply())),
            Verb::Unknown => reply_of(UNRECOGNIZED.as_bytes()),
        }
    }
}


// ---------------------------------------------------------------------------
// Reading a DATA body and an AUTH response

/// Where a DATA transfer stands after a line.
pub enum DataProgress {
    /// More lines follow.
    More,
    /// The lone dot came: the body, or none when it went past the limit.
    Done(Option<Vec<u8>>),
}

/// A DATA body being read line by line. Once the body goes past the limit
/// the rest is read and dropped up to the terminating dot.
pub struct DataReader {
    receiver: BodyReceiver,
    overflowed: bool,
}

impl DataReader {
    /// The body taken so far.
    pub closed spec fn body(&self) -> Seq<u8> {
        self.receiver.body()
    }

    /// Whether the body went past the limit.
    pub closed spec fn overflowed(&self) -> bool {
        self.overflowed
    }

    pub closed spec fn well_formed(&self) -> bool {
        self.receiver.max_size() == MAX_MESSAGE_SIZE && self.receiver.well_formed()
    }

    pub fn new() -> (reader: Self)
        ensures
            reader.well_formed(),
            reader.body() == Seq::<u8>::empty(),
            !reader.overflowed(),
    {
        DataReader { receiver: BodyReceiver::new(MAX_MESSAGE_SIZE), overflowed: false }
    }

    /// Takes one line as read from the connection.
    pub fn push(&mut self, line: &[u8]) -> (progress: DataProgress)
        requires
            old(self).well_formed(),
            line@.len() <= usize::MAX - MAX_MESSAGE_SIZE - 2,
        ensures
            final(self).well_formed(),
            ({
                let l = spec_strip_crlf(line@);
                if old(self).overflowed() {
                    &&& final(self).overflowed()
                    &&& final(self).body() == old(self).body()
                    &&& if is_terminator(l) {
                        progress matches DataProgress::Done(None)
                    } else {
                        progress is More
                    }
                } else if is_terminator(l) {
                    progress matches DataProgress::Done(Some(b)) && b@ == old(self).body() && b@.len()
                        <= MAX_MESSAGE_SIZE
                } else if old(self).body().len() + unstuffed(l).len() + 2 > MAX_MESSAGE_SIZE {
                    &&& progress is More
                    &&& final(self).overflowed()
                    &&& final(self).body() == old(self).body()
                } else {
                    &&& progress is More
                    &&& !final(self).overflowed()
                    &&& final(self).body() == old(self).body() + unstuffed(l) + seq![13u8, 10u8]
                }
            }),
    {
        let end = strip_crlf(line);
        let body = copy_prefix(line, end);
        if self.overflowed {
            if body.len() == 1 && body[0] == 46u8 {
                assert(body@ =~= seq![46u8]);
                return DataProgress::Done(None);
            }
            return DataProgress::More;
        }
        match self.receiver.push_line(body.as_slice()) {
            BodyStep::Continue => DataProgress::More,
            BodyStep::Complete => {
                let mut taken = BodyReceiver::new(MAX_MESSAGE_SIZE);
                std::mem::swap(&mut taken, &mut self.receiver);
                DataProgress::Done(Some(taken.into_body()))
            },
            BodyStep::TooLarge => {
                self.overflowed = true;
                DataProgress::More
            },
        }
    }
}

/// A copy of `line[..end]`.
fn copy_prefix(line: &[u8], end: usize) -> (v: Vec<u8>)
    requires
        end <= line@.len(),
    ensures
        v@ == line@.subrange(0, end as int),
{
    let mut v: Vec<u8> = Vec::new();
    let mut i: usize = 0;
    while i < end
        invariant
            i <= end <= line@.len(),
            v@ == line@.subrange(0, i as int),
        decreases end - i,
    {
        v.push(line[i]);
        i += 1;
        assert(v@ =~= line@.subrange(0, i as int));
    }
    v
}

/// The text of an AUTH response line: decoded lossily and trimmed; a lone
/// `*` cancels the exchange.
pub open spec fn spec_auth_response(line: Seq<u8>) -> Option<Seq<char>> {
    let text = trim(lossy_utf8(spec_strip_crlf(line)));
    if text == "*"@ {
        None
    } else {
        Some(text)
    }
}

pub fn auth_response(line: &[u8]) -> (response: Option<String>)
    ensures
        match spec_auth_response(line@) {
            Some(t) => response matches Some(r) && r@ == t,
            None => response is None,
        },
{
    let end = strip_crlf(line);
    let bytes = copy_prefix(line, end);
    let text = utf8_lossy(bytes.as_slice());
    let t = trimmed(text.as_str());
    if str_eq(t.as_str(), "*") {
        None
    } else {
        Some(t)
    }
}

// ---------------------------------------------------------------------------
// The protocol order

impl SessionState {
    /// The order of a transaction: nothing is pending before the greeting; a
    /// sender comes before the recipients; recipients are held only in the
    /// recipient stage, and that stage has at least one.
    pub open spec fn in_order(&self) -> bool {
        &&& self.stage == Stage::Connected ==> self.cleared()
        &&& self.stage == Stage::Greeted ==> self.data.mail_from is None && self.data.rcpt_to@.len() == 0
        &&& self.stage == Stage::Mail ==> self.data.mail_from is Some && self.data.rcpt_to@.len() == 0
        &&& self.stage == Stage::Rcpt ==> self.data.mail_from is Some && self.data.rcpt_to@.len() > 0
    }
}

/// Every command keeps a transaction in order: whatever line comes, a
/// session whose recipients followed a sender still has them so.
pub proof fn lemma_command_keeps_order(before: SessionState, after: SessionState, line: Seq<u8>, step: Step)
    requires
        before.in_order(),
        command_effect(before, after, line, step),
    ensures
        after.in_order(),
{
}

/// A sender taken in by `accept_sender` keeps a transaction in order.
pub proof fn lemma_sender_keeps_order(before: SessionState, after: SessionState, params: MailParams, reply: Seq<u8>)
    requires
        before.in_order(),
        sender_effect(before, after, params, reply),
    ensures
        after.in_order(),
{
}

/// A message is read only in the recipient stage, so in an ordered session
/// the envelope it is handed with has a sender and at least one recipient.
pub proof fn lemma_body_has_envelope(before: SessionState, after: SessionState, line: Seq<u8>, step: Step)
    requires
        before.in_order(),
        command_effect(before, after, line, step),
        step is ReadBody || step is ReadChunk,
    ensures
        before.data.mail_from is Some,
        before.data.rcpt_to@.len() > 0,
{
}

/// The code of a reply for the log: its first three bytes when they are
/// UTF-8, else `---`.
pub open spec fn spec_reply_code(reply: Seq<u8>) -> Option<Seq<u8>> {
    if reply.len() >= 3 && valid_utf8(reply.subrange(0, 3)) {
        Some(reply.subrange(0, 3))
    } else {
        None
    }
}

pub fn reply_code(reply: &[u8]) -> (code: String)
    ensures
        match spec_reply_code(reply@) {
            Some(b) => code@ == decode_utf8(b),
            None => code@ == "---"@,
        },
{
    if reply.len() >= 3 {
        let head = copy_prefix(reply, 3);
        match utf8_string(head) {
            Some(text) => return text,
            None => {},
        }
    }
    String::from_str("---")
}

/// A submission session that has not authenticated is refused every
/// transaction command, and nothing changes.
pub proof fn lemma_submission_needs_login(before: SessionState, after: SessionState, line: Seq<u8>, step: Step)
    requires
        before.mode == SmtpMode::Submission,
        !before.data.authenticated,
        command_effect(before, after, line, step),
        spec_verb(line) == Verb::Mail || spec_verb(line) == Verb::Rcpt || spec_verb(line) == Verb::Data || spec_verb(line)
            == Verb::Bdat,
    ensures
        after.same_as(before),
        replies(step, AUTH_REQUIRED.spec_bytes()),
{
}

/// No relay for strangers: in a session that has not authenticated, a
/// recipient outside the hosted domains is never taken, whatever the line.
pub proof fn lemma_no_relay_without_login(before: SessionState, after: SessionState, line: Seq<u8>, step: Step)
    requires
        !before.data.authenticated,
        spec_verb(line) == Verb::Rcpt,
        command_effect(before, after, line, step),
        parsed(line) matches Ok(Command::Rcpt { to }) && !spec_is_hosted(before.local_domains@, rcpt_address(to)),
    ensures
        !(step is CheckGreylist),
        after.same_as(before),
{
}

// ---------------------------------------------------------------------------
// Taking an inbound message in

/// Stamps an inbound message with the Received and Authentication-Results
/// headers; the hop's id is its arrival time.
pub fn stamp_inbound(
    helo: &str,
    remote_ip: &str,
    host: &str,
    tls: bool,
    now: u64,
    auth_results: &str,
    body: &[u8],
) -> (stamped: Vec<u8>)
    ensures
        stamped@ == encode_utf8(received_text(helo@, remote_ip@, host@, tls, now, now)) + spec_prepend_header(
            "Authentication-Results".spec_bytes(),
            auth_results.spec_bytes(),
            body@,
        ),
{
    let mut stamped = build_received(helo, remote_ip, host, tls, now, now);
    let mut authed = prepend_header("Authentication-Results", auth_results, body);
    stamped.append(&mut authed);
    stamped
}

/// Whether an inbound delivery is refused after the fact: when no
/// recipient resolved to an account and none was forwarded, the message is
/// unroutable; when every filed copy was refused for quota (with no relay)
/// and none was forwarded, the mailboxes are full; otherwise it stands.
pub fn delivery_refusal(resolved: usize, forwarded: usize, refused_everywhere: bool) -> (refusal: Option<Vec<u8>>)
    ensures
        resolved == 0 && forwarded == 0 ==> (refusal matches Some(r) && r@ == UNROUTABLE.spec_bytes()),
        resolved == 0 && forwarded > 0 ==> refusal is None,
        resolved > 0 && refused_everywhere && forwarded == 0 ==> (refusal matches Some(r) && r@
            == MAILBOX_FULL.spec_bytes()),
        resolved > 0 && !(refused_everywhere && forwarded == 0) ==> refusal is None,
{
    if resolved == 0 {
        if forwarded > 0 {
            return None;
        }
        return Some(copy_bytes(UNROUTABLE.as_bytes()));
    }
    if refused_everywhere && forwarded == 0 {
        return Some(copy_bytes(mailbox_full_reply()));
    }
    None
}

/// The copy at `i` was refused for quota and nothing of it was relayed.
pub open spec fn all_refused_at(over_quota: Seq<bool>, relayed: Seq<bool>, i: int) -> bool {
    over_quota[i] && !relayed[i]
}

/// Every filed copy was refused: over quota, with nothing relayed.
pub fn refused_everywhere(over_quota: &[bool], relayed: &[bool]) -> (all: bool)
    requires
        over_quota@.len() == relayed@.len(),
    ensures
        all == forall|i: int| 0 <= i < over_quota@.len() ==> #[trigger] all_refused_at(over_quota@, relayed@, i),
{
    let mut i: usize = 0;
    while i < over_quota.len()
        invariant
            i <= over_quota@.len(),
            over_quota@.len() == relayed@.len(),
            forall|j: int| 0 <= j < i ==> #[trigger] all_refused_at(over_quota@, relayed@, j),
        decreases over_quota@.len() - i,
    {
        let q = over_quota[i];
        let r = relayed[i];
        if !q || r {
            assert(!all_refused_at(over_quota@, relayed@, i as int));
            return false;
        }
        assert(all_refused_at(over_quota@, relayed@, i as int));
        i += 1;
    }
    true
}

/// What the spam verdict leaves of an inbound message: the folder to file
/// it in, or the reply that turns it away.
pub fn verdict_disposition(verdict: SpamDecision) -> (r: Result<Disposition, Vec<u8>>)
    ensures
        match verdict {
            SpamDecision::Accept(d) => r == Ok::<Disposition, Vec<u8>>(d),
            SpamDecision::Defer(reply) => r matches Err(b) && b@ == reply@,
            SpamDecision::Reject(reply) => r matches Err(b) && b@ == reply@,
        },
{
    match verdict {
        SpamDecision::Accept(d) => Ok(d),
        SpamDecision::Defer(reply) => Err(copy_bytes(reply)),
        SpamDecision::Reject(reply) => Err(copy_bytes(reply)),
    }
}

/// A special-use folder a delivery is filed into in place of the usual one.
#[derive(Clone, Copy, Debug, PartialEq, Eq)]
pub enum FolderRole {
    Junk,
}

/// Where an accepted inbound message is filed: a spam disposition files it
/// into the Junk folder; an inbox disposition overrides nothing.
pub fn target_override(disposition: Disposition) -> (target: Option<FolderRole>)
    ensures
        target == match disposition {
            Disposition::Spam => Some(FolderRole::Junk),
            Disposition::Inbox => None::<FolderRole>,
        },
{
    match disposition {
        Disposition::Spam => Some(FolderRole::Junk),
        Disposition::Inbox => None,
    }
}

/// Whether the recipients' vacation replies are sent: not for a message
/// filed as spam.
pub fn answers_vacations(disposition: Disposition) -> (answered: bool)
    ensures
        answered == (disposition == Disposition::Inbox),
{
    match disposition {
        Disposition::Spam => false,
        Disposition::Inbox => true,
    }
}

} // verus!
