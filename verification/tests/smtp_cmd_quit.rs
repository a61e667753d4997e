use irixmail::smtp::cmd_quit::{quit_reply, QUIT_OK};

#[test]
fn a_quit_is_acknowledged() {
    assert_eq!(quit_reply(), QUIT_OK.as_bytes());
}

#[test]
fn the_reply_is_a_closing_completion() {
    assert!(quit_reply().starts_with(b"221"));
}
