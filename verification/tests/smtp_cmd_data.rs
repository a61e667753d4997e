use irixmail::smtp::cmd_data::{data_reply, BodyReceiver, BodyStep, DataOutcome, NEED_RCPT};

#[test]
fn data_without_a_recipient_is_refused() {
    assert_eq!(data_reply(false), DataOutcome::Reject(NEED_RCPT.as_bytes()));
}

#[test]
fn data_with_a_recipient_invites_the_body() {
    match data_reply(true) {
        DataOutcome::Ready(reply) => assert!(reply.starts_with(b"354")),
        _ => panic!("expected the body input to be invited"),
    }
}

#[test]
fn a_plain_body_is_collected_with_crlf_endings() {
    let mut receiver = BodyReceiver::new(0);
    assert_eq!(receiver.push_line(b"hello"), BodyStep::Continue);
    assert_eq!(receiver.push_line(b"world"), BodyStep::Continue);
    assert_eq!(receiver.push_line(b"."), BodyStep::Complete);
    assert_eq!(receiver.into_body(), b"hello\r\nworld\r\n");
}

#[test]
fn a_leading_dot_is_unstuffed() {
    let mut receiver = BodyReceiver::new(0);
    assert_eq!(receiver.push_line(b"..dotted"), BodyStep::Continue);
    assert_eq!(receiver.push_line(b"."), BodyStep::Complete);
    assert_eq!(receiver.into_body(), b".dotted\r\n");
}

#[test]
fn an_empty_body_terminates_immediately() {
    let mut receiver = BodyReceiver::new(0);
    assert_eq!(receiver.push_line(b"."), BodyStep::Complete);
    assert!(receiver.is_empty());
    assert_eq!(receiver.into_body(), b"");
}

#[test]
fn a_blank_line_is_preserved_as_a_crlf() {
    let mut receiver = BodyReceiver::new(0);
    assert_eq!(receiver.push_line(b"head"), BodyStep::Continue);
    assert_eq!(receiver.push_line(b""), BodyStep::Continue);
    assert_eq!(receiver.push_line(b"body"), BodyStep::Continue);
    receiver.push_line(b".");
    assert_eq!(receiver.into_body(), b"head\r\n\r\nbody\r\n");
}

#[test]
fn a_body_over_the_limit_is_reported_too_large() {
    let mut receiver = BodyReceiver::new(8);
    assert_eq!(receiver.push_line(b"ok"), BodyStep::Continue);
    assert_eq!(receiver.push_line(b"overflowing"), BodyStep::TooLarge);
}

#[test]
fn a_body_within_the_limit_keeps_accumulating() {
    let mut receiver = BodyReceiver::new(16);
    assert_eq!(receiver.push_line(b"four"), BodyStep::Continue);
    assert_eq!(receiver.push_line(b"five"), BodyStep::Continue);
    assert_eq!(receiver.len(), 12);
}

#[test]
fn a_zero_limit_leaves_the_body_unbounded() {
    let mut receiver = BodyReceiver::new(0);
    for _ in 0..1000 {
        assert_eq!(receiver.push_line(b"line"), BodyStep::Continue);
    }
    assert_eq!(receiver.len(), 6000);
}
