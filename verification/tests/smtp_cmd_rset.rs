use irixmail::smtp::cmd_rset::{rset_reply, RESET_OK};

#[test]
fn a_reset_is_acknowledged() {
    assert_eq!(rset_reply(), RESET_OK.as_bytes());
}

#[test]
fn cmd_rset_the_reply_is_a_positive_completion() {
    assert!(rset_reply().starts_with(b"250"));
}
