use irixmail::smtp::parser::parse_command;
use irixmail::smtp::parser::AuthMechanism;
use irixmail::smtp::parser::Command;
use irixmail::smtp::parser::ParseError;
use irixmail::smtp::parser::RcptParams;

#[test]
fn ehlo_and_helo_carry_the_host() {
    assert_eq!(
        parse_command(b"EHLO client.example\r\n").unwrap(),
        Command::Ehlo { host: "client.example".into() }
    );
    assert_eq!(
        parse_command(b"helo other.example\r\n").unwrap(),
        Command::Helo { host: "other.example".into() }
    );
}

#[test]
fn mail_captures_size_and_extensions() {
    let command = parse_command(b"MAIL FROM:<a@b.example> SIZE=2048 BODY=8BITMIME SMTPUTF8\r\n").unwrap();
    let from = match command {
        Command::Mail { from } => from,
        _ => panic!("expected MAIL"),
    };
    assert_eq!(from.address, "a@b.example");
    assert_eq!(from.size, 2048);
    assert!(from.body_8bitmime);
    assert!(from.smtputf8);
}

#[test]
fn null_sender_is_accepted() {
    let command = parse_command(b"MAIL FROM:<>\r\n").unwrap();
    let from = match command {
        Command::Mail { from } => from,
        _ => panic!("expected MAIL"),
    };
    assert!(from.address.is_empty());
}

#[test]
fn rcpt_carries_the_recipient() {
    assert_eq!(
        parse_command(b"RCPT TO:<c@d.example>\r\n").unwrap(),
        Command::Rcpt { to: RcptParams { address: "c@d.example".into() } }
    );
}

#[test]
fn simple_verbs_parse() {
    assert_eq!(parse_command(b"DATA\r\n").unwrap(), Command::Data);
    assert_eq!(parse_command(b"RSET\r\n").unwrap(), Command::Rset);
    assert_eq!(parse_command(b"NOOP\r\n").unwrap(), Command::Noop);
    assert_eq!(parse_command(b"QUIT\r\n").unwrap(), Command::Quit);
    assert_eq!(parse_command(b"STARTTLS\r\n").unwrap(), Command::StartTls);
}

#[test]
fn bdat_reports_chunk_size_and_last_flag() {
    assert_eq!(
        parse_command(b"BDAT 32 LAST\r\n").unwrap(),
        Command::Bdat { chunk_size: 32, is_last: true }
    );
    assert_eq!(
        parse_command(b"BDAT 16\r\n").unwrap(),
        Command::Bdat { chunk_size: 16, is_last: false }
    );
}

#[test]
fn auth_mechanisms_are_classified() {
    assert_eq!(
        parse_command(b"AUTH PLAIN\r\n").unwrap(),
        Command::Auth { mechanism: AuthMechanism::Plain, initial_response: String::new() }
    );
    assert_eq!(
        parse_command(b"AUTH LOGIN\r\n").unwrap(),
        Command::Auth { mechanism: AuthMechanism::Login, initial_response: String::new() }
    );
    let command = parse_command(b"AUTH CRAM-MD5\r\n").unwrap();
    assert_eq!(
        command,
        Command::Auth { mechanism: AuthMechanism::Unsupported, initial_response: String::new() }
    );
}

#[test]
fn auth_plain_keeps_the_initial_response() {
    let command = parse_command(b"AUTH PLAIN dGVzdAB0ZXN0AHNlY3JldA==\r\n").unwrap();
    assert_eq!(
        command,
        Command::Auth {
            mechanism: AuthMechanism::Plain,
            initial_response: "dGVzdAB0ZXN0AHNlY3JldA==".into(),
        }
    );
}

#[test]
fn an_incomplete_line_is_reported() {
    assert_eq!(parse_command(b"QUIT"), Err(ParseError::Incomplete));
}

#[test]
fn an_unknown_verb_is_reported() {
    assert_eq!(parse_command(b"FROBNICATE\r\n"), Err(ParseError::UnknownCommand));
}

#[test]
fn an_unsupported_verb_is_rejected() {
    assert_eq!(parse_command(b"VRFY user\r\n"), Err(ParseError::Unsupported));
    assert_eq!(parse_command(b"HELP\r\n"), Err(ParseError::Unsupported));
}

#[test]
fn a_malformed_sender_is_reported() {
    assert_eq!(parse_command(b"MAIL FROM:<@invalid>\r\n"), Err(ParseError::InvalidSender));
}

#[test]
fn each_parse_error_reads_as_its_description() {
    assert_eq!(ParseError::Incomplete.to_string(), "command line incomplete");
    assert_eq!(ParseError::UnknownCommand.to_string(), "unrecognized command");
    assert_eq!(ParseError::Unsupported.to_string(), "command not supported");
    assert_eq!(ParseError::InvalidSender.to_string(), "invalid sender address");
    assert_eq!(ParseError::InvalidRecipient.to_string(), "invalid recipient address");
    assert_eq!(ParseError::Syntax("':'").to_string(), "syntax error, expected ':'");
    assert_eq!(ParseError::InvalidParameter("SIZE").to_string(), "invalid SIZE parameter");
    assert_eq!(ParseError::UnsupportedParameter("FOO=1".to_string()).to_string(), "unsupported parameter FOO=1");
}
