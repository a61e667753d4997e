use irixmail::sieve::instruction::AddressPart;
use irixmail::sieve::message::{address_part, parse_envelope_address, MessageView};

const MESSAGE: &[u8] = "From: Weekly News <newsletter@example.com>\r\nTo: me@example.org, Other <other@example.org>\r\nSubject: =?utf-8?q?Weekly_deals?=\r\nX-Campaign: summer\r\nX-Campaign: winter\r\n\r\nBody\r\n"
.as_bytes();

#[test]
fn header_values_decode_encoded_words() {
    let view = MessageView::new(MESSAGE);
    assert_eq!(view.header_values("subject"), vec!["Weekly deals"]);
}

#[test]
fn header_values_render_address_headers_with_names() {
    let view = MessageView::new(MESSAGE);
    assert_eq!(
        view.header_values("From"),
        vec!["Weekly News <newsletter@example.com>"]
    );
    assert_eq!(
        view.header_values("to"),
        vec!["me@example.org, Other <other@example.org>"]
    );
}

#[test]
fn header_values_return_every_instance_of_a_repeated_header() {
    let view = MessageView::new(MESSAGE);
    assert_eq!(view.header_values("x-campaign"), vec!["summer", "winter"]);
}

#[test]
fn a_missing_header_yields_no_values_and_does_not_exist() {
    let view = MessageView::new(MESSAGE);
    assert!(view.header_values("x-nonsense").is_empty());
    assert!(!view.header_exists("x-nonsense"));
    assert!(view.header_exists("from"));
}

#[test]
fn header_addresses_extract_each_requested_part() {
    let view = MessageView::new(MESSAGE);
    assert_eq!(
        view.header_addresses("to", AddressPart::All),
        vec!["me@example.org", "other@example.org"]
    );
    assert_eq!(
        view.header_addresses("to", AddressPart::Localpart),
        vec!["me", "other"]
    );
    assert_eq!(
        view.header_addresses("to", AddressPart::Domain),
        vec!["example.org", "example.org"]
    );
}

#[test]
fn header_addresses_on_a_non_address_header_visit_an_empty_string() {
    let view = MessageView::new(MESSAGE);
    assert_eq!(
        view.header_addresses("x-campaign", AddressPart::All),
        vec!["", ""]
    );
}

#[test]
fn an_unparseable_message_has_no_headers_but_keeps_its_size() {
    let view = MessageView::new(b"");
    assert!(view.header_values("from").is_empty());
    assert_eq!(view.size(), 0);
}

#[test]
fn envelope_addresses_are_normalized_at_ingress() {
    assert_eq!(
        parse_envelope_address("<user@example.com>").as_deref(),
        Some("user@example.com")
    );
    assert_eq!(parse_envelope_address("<>").as_deref(), Some(""));
    assert_eq!(parse_envelope_address("").as_deref(), Some(""));
    assert_eq!(
        parse_envelope_address("@relay.example,@other.example:user@example.com").as_deref(),
        Some("user@example.com")
    );
    assert_eq!(
        parse_envelope_address("MAILER-DAEMON").as_deref(),
        Some("mailer-daemon")
    );
}

#[test]
fn junk_envelope_addresses_are_dropped() {
    for junk in [
        "a b@example.com",
        "user@@example.com",
        "user@exa\u{7f}mple.com",
        "usér@example.com",
        "user@bad..example",
        "user@",
        "@example.com",
        "plainuser",
        "<unclosed@example.com",
    ] {
        assert_eq!(parse_envelope_address(junk), None, "{junk}");
    }
}

#[test]
fn address_parts_split_on_the_last_at_sign() {
    assert_eq!(address_part("a@b@c.example", AddressPart::Localpart), "a@b");
    assert_eq!(
        address_part("a@b@c.example", AddressPart::Domain),
        "c.example"
    );
    assert_eq!(
        address_part("no-at-sign", AddressPart::Localpart),
        "no-at-sign"
    );
    assert_eq!(address_part("no-at-sign", AddressPart::Domain), "");
}
