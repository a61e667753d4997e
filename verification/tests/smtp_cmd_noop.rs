use irixmail::smtp::cmd_noop::{noop_reply, NOOP_OK};

#[test]
fn a_noop_is_acknowledged() {
    assert_eq!(noop_reply(), NOOP_OK.as_bytes());
}

#[test]
fn cmd_noop_the_reply_is_a_positive_completion() {
    assert!(noop_reply().starts_with(b"250"));
}
