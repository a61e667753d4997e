use base64::engine::general_purpose::STANDARD;
use base64::Engine;
use irixmail::smtp::cmd_auth::{
    credentials_invalid_reply, success_reply, too_many_attempts_reply, Credentials, SaslExchange, SaslStart, SaslStep,
    ALREADY_AUTHENTICATED, CHALLENGE_EMPTY, CHALLENGE_PASSWORD, CHALLENGE_USERNAME, ENCRYPTION_REQUIRED,
    INVALID_CHALLENGE, UNSUPPORTED_MECHANISM,
};
use irixmail::smtp::parser::AuthMechanism;

fn b64(bytes: &[u8]) -> String {
    STANDARD.encode(bytes)
}

fn resolved(start: SaslStart) -> Credentials {
    match start {
        SaslStart::Continue {
            step: SaslStep::Resolved(credentials),
            ..
        } => credentials,
        _ => panic!("expected resolved credentials"),
    }
}

#[test]
fn auth_is_refused_on_a_plaintext_channel() {
    let start = SaslExchange::begin(AuthMechanism::Plain, false, false, "");
    match start {
        SaslStart::Reply { bytes, success } => {
            assert_eq!(bytes, ENCRYPTION_REQUIRED.as_bytes());
            assert!(!success);
        }
        _ => panic!("expected a refusal"),
    }
}

#[test]
fn auth_is_refused_once_authenticated() {
    let start = SaslExchange::begin(AuthMechanism::Plain, true, true, "");
    match start {
        SaslStart::Reply { bytes, .. } => assert_eq!(bytes, ALREADY_AUTHENTICATED.as_bytes()),
        _ => panic!("expected a refusal"),
    }
}

#[test]
fn an_unsupported_mechanism_is_rejected() {
    let start = SaslExchange::begin(AuthMechanism::Unsupported, true, false, "");
    match start {
        SaslStart::Reply { bytes, .. } => assert_eq!(bytes, UNSUPPORTED_MECHANISM.as_bytes()),
        _ => panic!("expected a rejection"),
    }
}

#[test]
fn plain_with_an_inline_response_resolves_immediately() {
    let payload = b64(b"\0alice\0secret");
    let credentials = resolved(SaslExchange::begin(
        AuthMechanism::Plain,
        true,
        false,
        &payload,
    ));
    assert_eq!(credentials.authcid, "alice");
    assert_eq!(credentials.password, "secret");
}

#[test]
fn plain_without_an_inline_response_asks_for_a_challenge_then_resolves() {
    let SaslStart::Continue { mut exchange, step } =
        SaslExchange::begin(AuthMechanism::Plain, true, false, "")
    else {
        panic!("expected a live exchange");
    };
    assert_eq!(step, SaslStep::Challenge(CHALLENGE_EMPTY.as_bytes()));
    let payload = b64(b"\0bob\0hunter2");
    match exchange.advance(&payload) {
        SaslStep::Resolved(credentials) => {
            assert_eq!(credentials.authcid, "bob");
            assert_eq!(credentials.password, "hunter2");
        }
        _ => panic!("expected resolved credentials"),
    }
}

#[test]
fn login_walks_the_username_and_password_challenges() {
    let SaslStart::Continue { mut exchange, step } =
        SaslExchange::begin(AuthMechanism::Login, true, false, "")
    else {
        panic!("expected a live exchange");
    };
    assert_eq!(step, SaslStep::Challenge(CHALLENGE_USERNAME.as_bytes()));
    assert_eq!(
        exchange.advance(&b64(b"carol")),
        SaslStep::Challenge(CHALLENGE_PASSWORD.as_bytes())
    );
    match exchange.advance(&b64(b"open sesame")) {
        SaslStep::Resolved(credentials) => {
            assert_eq!(credentials.authcid, "carol");
            assert_eq!(credentials.password, "open sesame");
        }
        _ => panic!("expected resolved credentials"),
    }
}

#[test]
fn login_accepts_the_username_as_an_inline_response() {
    let SaslStart::Continue { mut exchange, step } =
        SaslExchange::begin(AuthMechanism::Login, true, false, &b64(b"dave"))
    else {
        panic!("expected a live exchange");
    };
    assert_eq!(step, SaslStep::Challenge(CHALLENGE_PASSWORD.as_bytes()));
    match exchange.advance(&b64(b"passphrase")) {
        SaslStep::Resolved(credentials) => assert_eq!(credentials.authcid, "dave"),
        _ => panic!("expected resolved credentials"),
    }
}

#[test]
fn a_non_base64_response_is_a_protocol_error() {
    let SaslStart::Continue { mut exchange, .. } =
        SaslExchange::begin(AuthMechanism::Plain, true, false, "")
    else {
        panic!("expected a live exchange");
    };
    assert_eq!(
        exchange.advance("not base64 !!!"),
        SaslStep::Reply {
            bytes: INVALID_CHALLENGE.as_bytes(),
            success: false
        }
    );
}

#[test]
fn a_plain_payload_missing_a_field_is_rejected() {
    let SaslStart::Continue { mut exchange, .. } =
        SaslExchange::begin(AuthMechanism::Plain, true, false, "")
    else {
        panic!("expected a live exchange");
    };
    assert_eq!(
        exchange.advance(&b64(b"alice")),
        SaslStep::Reply {
            bytes: INVALID_CHALLENGE.as_bytes(),
            success: false
        }
    );
}

#[test]
fn a_plain_payload_with_an_authzid_keeps_the_authcid() {
    let credentials = resolved(SaslExchange::begin(
        AuthMechanism::Plain,
        true,
        false,
        &b64(b"admin\0alice\0pw"),
    ));
    assert_eq!(credentials.authcid, "alice");
    assert_eq!(credentials.password, "pw");
}

#[test]
fn a_password_may_be_empty() {
    let credentials = resolved(SaslExchange::begin(
        AuthMechanism::Plain,
        true,
        false,
        &b64(b"\0alice\0"),
    ));
    assert_eq!(credentials.authcid, "alice");
    assert!(credentials.password.is_empty());
}

#[test]
fn the_decision_replies_carry_their_status_codes() {
    assert!(success_reply().starts_with(b"235"));
    assert!(credentials_invalid_reply().starts_with(b"535"));
}

#[test]
fn a_refused_exchange_reports_too_many_attempts_with_a_transient_code() {
    assert!(too_many_attempts_reply().starts_with(b"454"));
}

#[test]
fn a_plain_payload_with_a_nul_in_the_password_is_rejected() {
    let SaslStart::Continue { mut exchange, .. } =
        SaslExchange::begin(AuthMechanism::Plain, true, false, "")
    else {
        panic!("expected a live exchange");
    };
    assert_eq!(
        exchange.advance(&STANDARD.encode(b"\0alice\0pa\0ss")),
        SaslStep::Reply {
            bytes: INVALID_CHALLENGE.as_bytes(),
            success: false
        }
    );
}

#[test]
fn surrounding_white_space_around_the_response_is_ignored() {
    let credentials: Credentials = match SaslExchange::begin(
        AuthMechanism::Plain,
        true,
        false,
        &format!("  {}  ", STANDARD.encode(b"\0erin\0pw")),
    ) {
        SaslStart::Continue { step: SaslStep::Resolved(c), .. } => c,
        _ => panic!("expected resolved credentials"),
    };
    assert_eq!(credentials.authcid, "erin");
}
