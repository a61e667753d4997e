use vstd::prelude::*;
use vstd::string::StringSliceAdditionalSpecFns;
use vstd::utf8::*;
use base64::engine::general_purpose::STANDARD;
use base64::Engine;
use crate::sieve::message::{slice_chars, trim, trim_bounds};
use crate::smtp::parser::AuthMechanism;
use crate::text::{chars_of, first_index_of, lemma_first_index_of, string_of_chars, utf8_string};

verus! {

pub const ENCRYPTION_REQUIRED: &'static str = "530 5.7.0 Must issue a STARTTLS command first\r\n";
pub const ALREADY_AUTHENTICATED: &'static str = "503 5.5.1 Already authenticated\r\n";
pub const UNSUPPORTED_MECHANISM: &'static str = "504 5.5.4 Unsupported authentication mechanism\r\n";
pub const INVALID_CHALLENGE: &'static str = "501 5.5.2 Invalid authentication challenge\r\n";
pub const CREDENTIALS_INVALID: &'static str = "535 5.7.8 Authentication credentials invalid\r\n";
pub const SUCCESS: &'static str = "235 2.7.0 Authentication successful\r\n";
pub const TOO_MANY_ATTEMPTS: &'static str = "454 4.7.0 Too many failed authentication attempts\r\n";
pub const CHALLENGE_USERNAME: &'static str = "334 VXNlcm5hbWU6\r\n";
pub const CHALLENGE_PASSWORD: &'static str = "334 UGFzc3dvcmQ6\r\n";
pub const CHALLENGE_EMPTY: &'static str = "334 \r\n";

/// An identity and a password, as a client presented them.
#[derive(Clone, Debug, PartialEq, Eq)]
pub struct Credentials {
    pub authcid: String,
    pub password: String,
}

/// What one step of an exchange yields: another challenge, the credentials,
/// or a final reply.
#[derive(Clone, Debug, PartialEq, Eq)]
pub enum SaslStep {
    Challenge(&'static [u8]),
    Resolved(Credentials),
    Reply { bytes: &'static [u8], success: bool },
}

/// Where an exchange stands.
#[derive(Clone, Debug, PartialEq, Eq)]
pub enum SaslState {
    PlainAwaitingResponse,
    LoginAwaitingUsername,
    LoginAwaitingPassword { username: String },
}

/// A SASL exchange in progress.
pub struct SaslExchange {
    state: SaslState,
}

/// How an AUTH command starts: refused at once, or an exchange and its first
/// step.
pub enum SaslStart {
    Reply { bytes: &'static [u8], success: bool },
    Continue { exchange: SaslExchange, step: SaslStep },
}

/// What `base64`'s standard engine decodes a text to (`None` when it is no
/// valid base64).
pub uninterp spec fn base64_decoded(text: Seq<char>) -> Option<Seq<u8>>;

/// `base64::engine::general_purpose::STANDARD.decode`: the contract names its
/// result; which texts the engine accepts is its own.
#[verifier::external_body]
fn decode_base64(text: &str) -> (r: Option<Vec<u8>>)
    ensures
        match base64_decoded(text@) {
            Some(bytes) => r matches Some(v) && v@ == bytes,
            None => r is None,
        },
{
    STANDARD.decode(text).ok()
}

/// The fields of a PLAIN payload: what precedes the first NUL (the
/// authorization identity, ignored), the identity up to the second NUL, and
/// the password after it, which may hold no NUL; both must be UTF-8.
pub open spec fn spec_decode_plain(payload: Seq<u8>) -> Option<(Seq<char>, Seq<char>)> {
    let first = first_index_of(payload, 0u8);
    if first < 0 {
        None
    } else {
        let after = payload.subrange(first + 1, payload.len() as int);
        let second = first_index_of(after, 0u8);
        if second < 0 {
            None
        } else {
            let authcid = after.subrange(0, second);
            let password = after.subrange(second + 1, after.len() as int);
            if first_index_of(password, 0u8) >= 0 || !valid_utf8(authcid) || !valid_utf8(password) {
                None
            } else {
                Some((decode_utf8(authcid), decode_utf8(password)))
            }
        }
    }
}

/// The position of the first NUL in `v[from..]`, relative to `from`.
fn find_nul(v: &Vec<u8>, from: usize) -> (r: Option<usize>)
    requires
        from <= v@.len(),
    ensures
        match r {
            Some(i) => i as int == first_index_of(v@.subrange(from as int, v@.len() as int), 0u8) && from + i < v@.len(),
            None => first_index_of(v@.subrange(from as int, v@.len() as int), 0u8) == -1,
        },
{
    let ghost s = v@.subrange(from as int, v@.len() as int);
    proof {
        lemma_first_index_of(s, 0u8);
    }
    let mut i = from;
    while i < v.len()
        invariant
            from <= i <= v@.len(),
            s == v@.subrange(from as int, v@.len() as int),
            -1 <= first_index_of(s, 0u8) < s.len(),
            first_index_of(s, 0u8) >= 0 ==> s[first_index_of(s, 0u8)] == 0u8,
            forall|j: int| 0 <= j < s.len() && (first_index_of(s, 0u8) == -1 || j < first_index_of(s, 0u8)) ==> s[j] != 0u8,
            forall|j: int| 0 <= j < i - from ==> s[j] != 0u8,
        decreases v@.len() - i,
    {
        if v[i] == 0u8 {
            assert(s[i - from] == 0u8);
            return Some(i - from);
        }
        i += 1;
    }
    None
}

fn copy_range(v: &Vec<u8>, from: usize, to: usize) -> (r: Vec<u8>)
    requires
        from <= to <= v@.len(),
    ensures
        r@ == v@.subrange(from as int, to as int),
{
    let mut r: Vec<u8> = Vec::new();
    let mut i = from;
    while i < to
        invariant
            from <= i <= to <= v@.len(),
            r@ == v@.subrange(from as int, i as int),
        decreases to - i,
    {
        r.push(v[i]);
        i += 1;
        assert(r@ =~= v@.subrange(from as int, i as int));
    }
    r
}

/// Splits a PLAIN payload into its identity and password.
pub fn decode_plain(payload: &Vec<u8>) -> (r: Option<Credentials>)
    ensures
        match spec_decode_plain(payload@) {
            Some((authcid, password)) => r matches Some(c) && c.authcid@ == authcid && c.password@ == password,
            None => r is None,
        },
{
    let n = payload.len();
    let first = match find_nul(payload, 0) {
        Some(i) => i,
        None => {
            assert(payload@.subrange(0, n as int) =~= payload@);
            return None;
        },
    };
    assert(payload@.subrange(0, n as int) =~= payload@);
    let start = first + 1;
    let second = match find_nul(payload, start) {
        Some(i) => i,
        None => return None,
    };
    let ghost after = payload@.subrange(start as int, n as int);
    let authcid = copy_range(payload, start, start + second);
    let password = copy_range(payload, start + second + 1, n);
    assert(authcid@ =~= after.subrange(0, second as int));
    assert(password@ =~= after.subrange(second + 1, after.len() as int));
    let nul = find_nul(&password, 0);
    assert(password@.subrange(0, password@.len() as int) =~= password@);
    if nul.is_some() {
        return None;
    }
    let authcid = match utf8_string(authcid) {
        Some(s) => s,
        None => return None,
    };
    let password = match utf8_string(password) {
        Some(s) => s,
        None => return None,
    };
    Some(Credentials { authcid, password })
}

/// The bytes of an optional buffer.
pub open spec fn bytes_of(decoded: Option<Vec<u8>>) -> Option<Seq<u8>> {
    match decoded {
        Some(v) => Some(v@),
        None => None,
    }
}

/// A refusal of the response as malformed.
pub open spec fn invalid_step(step: SaslStep) -> bool {
    step matches SaslStep::Reply { bytes, success } && bytes@ == INVALID_CHALLENGE.spec_bytes() && !success
}

/// What an exchange in `state` does with the bytes of a response (`None`
/// when the response was no base64), and the state it moves to: a malformed
/// response leaves the state alone; PLAIN resolves its payload or refuses
/// it; LOGIN takes a UTF-8 username and asks for the password, then takes a
/// UTF-8 password and resolves; anything else is refused and the exchange
/// starts over as PLAIN.
pub open spec fn advance_spec(state: SaslState, decoded: Option<Seq<u8>>, step: SaslStep, next: SaslState) -> bool {
    match decoded {
        None => invalid_step(step) && next == state,
        Some(bytes) => match state {
            SaslState::PlainAwaitingResponse => next == SaslState::PlainAwaitingResponse && match spec_decode_plain(
                bytes,
            ) {
                Some((a, p)) => step matches SaslStep::Resolved(c) && c.authcid@ == a && c.password@ == p,
                None => invalid_step(step),
            },
            SaslState::LoginAwaitingUsername => if valid_utf8(bytes) {
                (step matches SaslStep::Challenge(c) && c@ == CHALLENGE_PASSWORD.spec_bytes()) && (
                next matches SaslState::LoginAwaitingPassword { username } && username@ == decode_utf8(bytes))
            } else {
                invalid_step(step) && next == SaslState::PlainAwaitingResponse
            },
            SaslState::LoginAwaitingPassword { username } => next == SaslState::PlainAwaitingResponse && if valid_utf8(
                bytes,
            ) {
                step matches SaslStep::Resolved(c) && c.authcid@ == username@ && c.password@ == decode_utf8(bytes)
            } else {
                invalid_step(step)
            },
        },
    }
}

fn invalid() -> (step: SaslStep)
    ensures
        invalid_step(step),
{
    SaslStep::Reply { bytes: INVALID_CHALLENGE.as_bytes(), success: false }
}

/// The text without its leading and trailing white space.
pub(crate) fn trimmed(text: &str) -> (r: String)
    ensures
        r@ == trim(text@),
{
    let chars = chars_of(text);
    let (s, e) = trim_bounds(&chars, 0, chars.len());
    assert(chars@.subrange(0, chars@.len() as int) =~= chars@);
    let kept = slice_chars(&chars, s, e);
    string_of_chars(kept.as_slice())
}

/// How an AUTH command starts: refused once authenticated, on a plaintext
/// channel, or for an unsupported mechanism; otherwise PLAIN and LOGIN
/// begin with their first challenge, or take an inline first response at
/// once.
pub open spec fn spec_begin(
    mechanism: AuthMechanism,
    is_tls: bool,
    authenticated: bool,
    initial_response: Seq<char>,
    start: SaslStart,
) -> bool {
    &&& authenticated ==> (start matches SaslStart::Reply { bytes, success } && bytes@
        == ALREADY_AUTHENTICATED.spec_bytes() && !success)
    &&& !authenticated && !is_tls ==> (start matches SaslStart::Reply { bytes, success } && bytes@
        == ENCRYPTION_REQUIRED.spec_bytes() && !success)
    &&& !authenticated && is_tls && mechanism == AuthMechanism::Unsupported ==> (start matches SaslStart::Reply {
        bytes,
        success,
    } && bytes@ == UNSUPPORTED_MECHANISM.spec_bytes() && !success)
    &&& !authenticated && is_tls && mechanism != AuthMechanism::Unsupported ==> (start matches SaslStart::Continue {
        exchange,
        step,
    } && {
        let first = if mechanism == AuthMechanism::Plain {
            SaslState::PlainAwaitingResponse
        } else {
            SaslState::LoginAwaitingUsername
        };
        if initial_response.len() == 0 {
            &&& exchange.state() == first
            &&& step matches SaslStep::Challenge(c)
            &&& c@ == if mechanism == AuthMechanism::Plain {
                CHALLENGE_EMPTY.spec_bytes()
            } else {
                CHALLENGE_USERNAME.spec_bytes()
            }
        } else {
            advance_spec(first, base64_decoded(trim(initial_response)), step, exchange.state())
        }
    })
}

impl SaslExchange {
    /// Where the exchange stands.
    pub closed spec fn state(&self) -> SaslState {
        self.state
    }

    /// Takes the next response, already base64-decoded (`None` when it was
    /// no base64).
    pub fn advance_decoded(&mut self, decoded: Option<Vec<u8>>) -> (step: SaslStep)
        ensures
            advance_spec(old(self).state(), bytes_of(decoded), step, final(self).state()),
    {
        let bytes = match decoded {
            Some(b) => b,
            None => return invalid(),
        };
        let mut state = SaslState::PlainAwaitingResponse;
        std::mem::swap(&mut state, &mut self.state);
        match state {
            SaslState::PlainAwaitingResponse => match decode_plain(&bytes) {
                Some(credentials) => SaslStep::Resolved(credentials),
                None => invalid(),
            },
            SaslState::LoginAwaitingUsername => match utf8_string(bytes) {
                Some(username) => {
                    self.state = SaslState::LoginAwaitingPassword { username };
                    SaslStep::Challenge(CHALLENGE_PASSWORD.as_bytes())
                },
                None => invalid(),
            },
            SaslState::LoginAwaitingPassword { username } => match utf8_string(bytes) {
                Some(password) => SaslStep::Resolved(Credentials { authcid: username, password }),
                None => invalid(),
            },
        }
    }

    /// Takes the next response of the client, in base64 with optional
    /// surrounding white space.
    pub fn advance(&mut self, response: &str) -> (step: SaslStep)
        ensures
            advance_spec(old(self).state(), base64_decoded(trim(response@)), step, final(self).state()),
    {
        let text = trimmed(response);
        let decoded = decode_base64(text.as_str());
        proof {
            assert(bytes_of(decoded) == base64_decoded(trim(response@)));
        }
        self.advance_decoded(decoded)
    }

    /// Starts an exchange: refused once authenticated, on a plaintext
    /// channel, or for an unsupported mechanism; otherwise PLAIN and LOGIN
    /// begin with their first challenge, or take an inline first response
    /// at once.
    pub fn begin(mechanism: AuthMechanism, is_tls: bool, authenticated: bool, initial_response: &str) -> (start: SaslStart)
        ensures
            spec_begin(mechanism, is_tls, authenticated, initial_response@, start),
    {
        if authenticated {
            return SaslStart::Reply { bytes: ALREADY_AUTHENTICATED.as_bytes(), success: false };
        }
        if !is_tls {
            return SaslStart::Reply { bytes: ENCRYPTION_REQUIRED.as_bytes(), success: false };
        }
        let empty = chars_of(initial_response).len() == 0;
        match mechanism {
            AuthMechanism::Plain => {
                let mut exchange = SaslExchange { state: SaslState::PlainAwaitingResponse };
                if empty {
                    SaslStart::Continue { exchange, step: SaslStep::Challenge(CHALLENGE_EMPTY.as_bytes()) }
                } else {
                    let step = exchange.advance(initial_response);
                    SaslStart::Continue { exchange, step }
                }
            },
            AuthMechanism::Login => {
                let mut exchange = SaslExchange { state: SaslState::LoginAwaitingUsername };
                if empty {
                    SaslStart::Continue { exchange, step: SaslStep::Challenge(CHALLENGE_USERNAME.as_bytes()) }
                } else {
                    let step = exchange.advance(initial_response);
                    SaslStart::Continue { exchange, step }
                }
            },
            AuthMechanism::Unsupported => SaslStart::Reply { bytes: UNSUPPORTED_MECHANISM.as_bytes(), success: false },
        }
    }
}

pub fn credentials_invalid_reply() -> (reply: &'static [u8])
    ensures
        reply@ == CREDENTIALS_INVALID.spec_bytes(),
{
    CREDENTIALS_INVALID.as_bytes()
}

pub fn success_reply() -> (reply: &'static [u8])
    ensures
        reply@ == SUCCESS.spec_bytes(),
{
    SUCCESS.as_bytes()
}

pub fn too_many_attempts_reply() -> (reply: &'static [u8])
    ensures
        reply@ == TOO_MANY_ATTEMPTS.spec_bytes(),
{
    TOO_MANY_ATTEMPTS.as_bytes()
}

} // verus!
