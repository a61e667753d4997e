use irixmail::smtp::dsn::{boundary_for, build_dsn, one_line, returned_headers, status_code, Rfc822Date, MAX_RETURNED_HEADERS};
use irixmail::smtp::queue_model::{QueuedMessage, RecipientStatus};
use irixmail::smtp::queue_model::{Expiry, QueueRecipient};


const ORIGINAL: &[u8] =
    b"From: sender@sender.example\r\nTo: who@dest.example\r\nSubject: hi\r\n\r\nbody text\r\n";

fn message(return_path: &str, recipients: Vec<QueueRecipient>) -> QueuedMessage {
    QueuedMessage::new(1_700_000_000, &[7, 7, 7, 7], 64, return_path.to_string(), recipients)
}

fn bounced(address: &str, reason: &str) -> QueueRecipient {
    let mut rcpt = QueueRecipient::new(address.to_string(), 0, Expiry::Attempts(5));
    rcpt.status = RecipientStatus::Bounced(reason.to_string());
    rcpt
}

#[test]
fn a_bounce_is_addressed_back_to_the_return_path_from_the_daemon() {
    let msg = message(
        "sender@sender.example",
        vec![bounced("who@dest.example", "550 no such user")],
    );
    let raw = build_dsn(&msg, "mail.irix.example", ORIGINAL, 1_700_000_100).expect("report");
    let text = String::from_utf8(raw).unwrap();

    assert!(text.contains("To: <sender@sender.example>\r\n"));
    assert!(text.contains("From: Mail Delivery Subsystem <MAILER-DAEMON@mail.irix.example>"));
    assert!(text.contains("Auto-Submitted: auto-replied"));
}

#[test]
fn a_null_return_path_raises_no_bounce_so_a_bounce_cannot_loop() {
    let msg = message("", vec![bounced("who@dest.example", "550 no such user")]);
    assert!(build_dsn(&msg, "mail.irix.example", ORIGINAL, 0).is_none());
}

#[test]
fn a_message_with_no_failed_recipient_yields_no_report() {
    let mut rcpt = QueueRecipient::new("who@dest.example".to_string(), 0, Expiry::Attempts(5));
    rcpt.status = RecipientStatus::Delivered;
    let msg = message("sender@sender.example", vec![rcpt]);
    assert!(build_dsn(&msg, "mail.irix.example", ORIGINAL, 0).is_none());
}

#[test]
fn the_report_is_a_multipart_delivery_status_with_three_parts() {
    let msg = message(
        "sender@sender.example",
        vec![bounced("who@dest.example", "550 no such user")],
    );
    let raw = build_dsn(&msg, "mail.irix.example", ORIGINAL, 1_700_000_100).expect("report");
    let text = String::from_utf8(raw).unwrap();

    assert!(text.contains("Content-Type: multipart/report; report-type=delivery-status;"));
    assert!(text.contains("Content-Type: message/delivery-status"));
    assert!(text.contains("Content-Type: text/plain; charset=utf-8"));
    assert!(text.contains("Content-Type: text/rfc822-headers"));

    let boundary = boundary_for(&msg);
    assert_eq!(text.matches(&format!("--{boundary}\r\n")).count(), 3);
    assert!(text.ends_with(&format!("--{boundary}--\r\n")));
}

#[test]
fn the_status_part_marks_each_recipient_failed_with_a_permanent_status() {
    let msg = message(
        "sender@sender.example",
        vec![
            bounced("one@dest.example", "550 user unknown"),
            bounced("two@dest.example", "554 transaction failed"),
        ],
    );
    let raw = build_dsn(&msg, "mail.irix.example", ORIGINAL, 1_700_000_100).expect("report");
    let text = String::from_utf8(raw).unwrap();

    assert!(text.contains("Reporting-MTA: dns;mail.irix.example"));
    assert!(text.contains("Final-Recipient: rfc822;one@dest.example"));
    assert!(text.contains("Final-Recipient: rfc822;two@dest.example"));
    assert_eq!(text.matches("Action: failed").count(), 2);
    assert!(text.contains("Status: 5.1.1"));
    assert!(text.contains("Diagnostic-Code: smtp;550 user unknown"));
}

#[test]
fn a_reason_without_a_code_still_reports_a_well_formed_permanent_status() {
    let msg = message(
        "sender@sender.example",
        vec![bounced("who@dest.example", "message expired in the queue")],
    );
    let raw = build_dsn(&msg, "mail.irix.example", ORIGINAL, 0).expect("report");
    let text = String::from_utf8(raw).unwrap();
    assert!(text.contains("Status: 5.0.0"));
    assert!(text.contains("Diagnostic-Code: smtp;message expired in the queue"));
}

#[test]
fn a_multiline_diagnostic_is_folded_onto_one_header_line() {
    let folded = one_line("550 first line\r\nsecond line");
    assert!(!folded.contains('\r'));
    assert!(!folded.contains('\n'));
    assert_eq!(folded, "550 first line second line");
}

#[test]
fn the_returned_headers_keep_only_the_header_block_of_the_original() {
    let kept = returned_headers(ORIGINAL);
    assert!(kept.contains("From: sender@sender.example"));
    assert!(kept.contains("Subject: hi"));
    assert!(!kept.contains("body text"));
}

#[test]
fn an_oversized_header_block_is_cut_at_a_whole_line() {
    let mut original = Vec::new();
    for index in 0..1_000 {
        original
            .extend_from_slice(format!("X-Filler-{index}: padding value here\r\n").as_bytes());
    }
    let kept = returned_headers(&original);
    assert!(kept.len() <= MAX_RETURNED_HEADERS);
    assert!(kept.ends_with('\n'));
}

#[test]
fn the_status_code_maps_known_remote_codes_and_defaults_the_rest() {
    assert_eq!(status_code("550 mailbox unavailable"), "5.1.1");
    assert_eq!(status_code("552 over quota"), "5.2.2");
    assert_eq!(status_code("421 try later"), "5.0.0");
    assert_eq!(status_code("no code at all"), "5.0.0");
}

#[test]
fn the_boundary_is_stable_for_a_message_and_differs_between_messages() {
    let one = message("s@a.example", vec![bounced("r@b.example", "550 x")]);
    let two = {
        QueuedMessage::new(1_700_000_001, &[1, 2, 3], 64, "s@a.example".to_string(), Vec::new())
    };
    assert_eq!(boundary_for(&one), boundary_for(&one));
    assert_ne!(boundary_for(&one), boundary_for(&two));
}

#[test]
fn the_date_renders_a_known_instant_in_rfc_822_form() {
    let rendered = Rfc822Date::from_timestamp(1_700_000_000).to_string();
    assert_eq!(rendered, "Tue, 14 Nov 2023 22:13:20 +0000");
}

#[test]
fn the_epoch_renders_as_the_start_of_1970() {
    let rendered = Rfc822Date::from_timestamp(0).to_string();
    assert_eq!(rendered, "Thu, 01 Jan 1970 00:00:00 +0000");
}
