use irixmail::smtp::queue_local::{route_of, Resolution};
use irixmail::smtp::deliver_hook::{day_number, over_quota_report, SECONDS_PER_DAY};
use irixmail::smtp::deliver_out::{classify, classify_response, DeliveryAttempt, SendFailure};
use irixmail::smtp::dsn::build_dsn;
use irixmail::smtp::greylist::DEFERRED;
use irixmail::smtp::queue_deliver::{
    apply_attempt, bounce_lost_body, bounce_report, domain_of, hold_for_rate, pending_flags, rejection_note, route_step,
    unreachable_attempt, RouteStep, Unreachable,
};
use irixmail::smtp::queue_enqueue::{queued_message, retry_now, Enqueue};
use irixmail::smtp::queue_local::{hosted_domains, is_hosted, local_attempt, LocalRoute};
use irixmail::smtp::queue_manager::{scan_all, scan_due, queue_id_of, next_wake, QueueKeyError, REFRESH_INTERVAL};
use irixmail::smtp::queue_model::{Expiry, QueueRecipient, QueuedMessage, RecipientStatus};
use irixmail::smtp::ratelimit_out::{OutboundLimits, DEFAULT_MAX_PER_DOMAIN, DEFAULT_MAX_PER_SENDER, DEFAULT_WINDOW};

fn recipient() -> QueueRecipient {
    QueueRecipient::new("user@remote.example".to_string(), 1_000, Expiry::Attempts(3))
}

#[test]
fn a_bounced_recipient_produces_a_rejection_note() {
    let mut rcpt = recipient();
    rcpt.status = RecipientStatus::Bounced("550 no such user".into());
    assert_eq!(rejection_note(&rcpt), Some(("user@remote.example", "550 no such user")));
}

#[test]
fn a_delivered_recipient_produces_no_note() {
    let mut rcpt = recipient();
    rcpt.status = RecipientStatus::Delivered;
    assert_eq!(rejection_note(&rcpt), None);
}

#[test]
fn a_delivered_attempt_settles_the_recipient() {
    let mut rcpt = recipient();
    apply_attempt(&mut rcpt, DeliveryAttempt::Delivered, 1_000);
    assert_eq!(rcpt.status, RecipientStatus::Delivered);
    assert!(rcpt.status.is_settled());
}

#[test]
fn a_bounce_settles_with_the_reason() {
    let mut rcpt = recipient();
    apply_attempt(&mut rcpt, DeliveryAttempt::Bounced("550 no such user".into()), 1_000);
    assert!(matches!(rcpt.status, RecipientStatus::Bounced(_)));
}

#[test]
fn a_deferral_reschedules_and_advances_attempts() {
    let mut rcpt = recipient();
    apply_attempt(&mut rcpt, DeliveryAttempt::Deferred("451 try later".into()), 1_000);
    assert!(matches!(rcpt.status, RecipientStatus::Deferred(_)));
    assert_eq!(rcpt.retry.attempts, 1);
    assert!(rcpt.retry.due > 1_000);
}

#[test]
fn a_deferral_past_the_attempt_limit_bounces() {
    let mut rcpt = recipient();
    rcpt.retry.attempts = 3;
    apply_attempt(&mut rcpt, DeliveryAttempt::Deferred("451 try later".into()), 1_000);
    assert!(matches!(rcpt.status, RecipientStatus::Bounced(_)));
}

#[test]
fn the_first_deferral_waits_the_base_backoff() {
    let mut rcpt = recipient();
    apply_attempt(&mut rcpt, DeliveryAttempt::Deferred("451 try later".into()), 1_000);
    assert_eq!(rcpt.retry.due, 1_300);
    assert_eq!(rcpt.status, RecipientStatus::Deferred("451 try later".into()));
}

#[test]
fn the_queue_domain_is_what_follows_the_last_at() {
    assert_eq!(domain_of("a@b@remote.example"), "remote.example");
    assert_eq!(domain_of("nobody"), "");
}

fn message(recipients: Vec<QueueRecipient>) -> QueuedMessage {
    QueuedMessage::new(10, b"hash", 42, "sender@here.example".to_string(), recipients)
}

#[test]
fn only_recipients_that_were_pending_and_bounced_are_reported() {
    let mut a = recipient();
    let mut b = QueueRecipient::new("b@remote.example".to_string(), 1_000, Expiry::Attempts(3));
    let c = QueueRecipient::new("c@remote.example".to_string(), 1_000, Expiry::Attempts(3));
    b.status = RecipientStatus::Bounced("old".into());
    let mut m = message(vec![a.clone(), b, c]);
    let before = pending_flags(&m);
    assert_eq!(before, vec![true, false, true]);
    a.status = RecipientStatus::Bounced("550 no".into());
    m.recipients[0] = a.clone();
    m.recipients[2].status = RecipientStatus::Delivered;
    let report = bounce_report(&m, &before).unwrap();
    assert_eq!(report.recipients, vec![a]);
    assert_eq!(report.return_path, "sender@here.example");
    m.return_path = String::new();
    assert!(bounce_report(&m, &before).is_none());
}

#[test]
fn nothing_newly_bounced_raises_no_report() {
    let m = message(vec![recipient()]);
    let before = pending_flags(&m);
    assert!(bounce_report(&m, &before).is_none());
}

#[test]
fn a_rate_hold_defers_only_due_recipients_without_spending_an_attempt() {
    let late = QueueRecipient::new("late@remote.example".to_string(), 9_000, Expiry::Attempts(3));
    let mut m = message(vec![recipient(), late.clone()]);
    hold_for_rate(&mut m, 1_000, 4_600);
    assert_eq!(m.recipients[0].retry.due, 4_600);
    assert_eq!(m.recipients[0].retry.attempts, 0);
    assert_eq!(m.recipients[0].status, RecipientStatus::Deferred("outbound rate limited".into()));
    assert_eq!(m.recipients[1], late);
}

#[test]
fn a_lost_body_bounces_every_pending_recipient() {
    let mut done = QueueRecipient::new("done@remote.example".to_string(), 1_000, Expiry::Attempts(3));
    done.status = RecipientStatus::Delivered;
    let mut m = message(vec![recipient(), done.clone()]);
    bounce_lost_body(&mut m);
    assert_eq!(m.recipients[0].status, RecipientStatus::Bounced("the message body is no longer available".into()));
    assert_eq!(m.recipients[1], done);
}

#[test]
fn an_unknown_hosted_user_bounces_with_its_address() {
    match route_step(LocalRoute::Unknown, "x@hosted.example") {
        RouteStep::Settled(DeliveryAttempt::Bounced(text)) => {
            assert_eq!(text, "550 5.1.1 <x@hosted.example>: recipient address rejected: user unknown")
        }
        _ => panic!("expected a bounce"),
    }
    assert!(matches!(route_step(LocalRoute::Remote, "x"), RouteStep::Remote));
    assert!(matches!(route_step(LocalRoute::Deliver { account_id: 7 }, "x"), RouteStep::Deliver(7)));
}

#[test]
fn an_unreachable_domain_bounces_or_defers() {
    assert!(unreachable_attempt(Unreachable::NoMailAccepted).is_permanent());
    assert_eq!(
        unreachable_attempt(Unreachable::LookupFailed("timeout".into())),
        DeliveryAttempt::Deferred("MX resolution failed: timeout".into())
    );
    assert_eq!(unreachable_attempt(Unreachable::NoExchange), DeliveryAttempt::Deferred("no reachable mail exchange".into()));
}

#[test]
fn a_five_hundred_class_response_bounces_the_recipient() {
    let verdict = classify_response(550, "no such user");
    assert!(verdict.is_permanent());
    assert_eq!(verdict, DeliveryAttempt::Bounced("550 no such user".into()));
}

#[test]
fn a_four_hundred_class_response_defers_the_recipient() {
    let verdict = classify_response(451, "try again later");
    assert!(!verdict.is_permanent());
    assert!(!verdict.is_delivered());
    assert_eq!(verdict, DeliveryAttempt::Deferred("451 try again later".into()));
}

#[test]
fn an_unexpected_reply_is_classified_by_its_code() {
    let bounced = classify(SendFailure::UnexpectedReply { code: 553, message: "bad mailbox".into() });
    assert!(bounced.is_permanent());
    let deferred = classify(SendFailure::UnexpectedReply { code: 421, message: "shutting down".into() });
    assert!(!deferred.is_permanent());
    assert!(!deferred.is_delivered());
}

#[test]
fn a_connection_fault_with_no_reply_defers() {
    assert!(matches!(classify(SendFailure::Other("timed out".into())), DeliveryAttempt::Deferred(_)));
    assert_eq!(classify(SendFailure::MissingStartTls), DeliveryAttempt::Deferred("exchange withdrew STARTTLS".into()));
    assert_eq!(
        classify(SendFailure::AuthenticationFailed { code: 535, message: "denied".into() }),
        DeliveryAttempt::Deferred("535 denied".into())
    );
}

#[test]
fn a_day_number_buckets_an_instant_by_whole_days() {
    assert_eq!(day_number(0), 0);
    assert_eq!(day_number(SECONDS_PER_DAY - 1), 0);
    assert_eq!(day_number(SECONDS_PER_DAY), 1);
    assert_eq!(day_number(SECONDS_PER_DAY * 3 + 17), 3);
}

#[test]
fn an_over_quota_report_lists_the_full_mailboxes() {
    let addresses = vec!["a@h.example".to_string(), "b@h.example".to_string(), "c@h.example".to_string()];
    let report = over_quota_report(&addresses, &[false, true, true], "s@remote.example", 99, 500).unwrap();
    assert_eq!(report.recipients.len(), 2);
    assert_eq!(report.recipients[0].address, "b@h.example");
    assert_eq!(report.recipients[1].status, RecipientStatus::Bounced("552 5.2.2 Mailbox full".into()));
    assert_eq!(report.recipients[1].expiry, Expiry::Attempts(1));
    assert_eq!(report.size, 99);
    assert_eq!(report.return_path, "s@remote.example");
    assert!(over_quota_report(&addresses, &[true, true, true], "", 99, 500).is_none());
    assert!(over_quota_report(&addresses, &[false, false], "s@remote.example", 99, 500).is_none());
}

#[test]
fn the_deferral_is_a_transient_negative() {
    assert!(DEFERRED.as_bytes().starts_with(b"452"));
}

#[test]
fn ratelimit_out_the_defaults_cap_both_axes() {
    let limits = OutboundLimits::default();
    assert_eq!(limits.max_per_sender, DEFAULT_MAX_PER_SENDER);
    assert_eq!(limits.max_per_domain, DEFAULT_MAX_PER_DOMAIN);
    assert_eq!(limits.window, DEFAULT_WINDOW);
    assert!(!limits.is_disabled());
}

fn hosted(names: &[&str]) -> Vec<String> {
    names.iter().map(|name| name.to_string()).collect()
}

#[test]
fn a_hosted_domain_is_recognised_case_insensitively() {
    let hosted = hosted(&["hosted.example"]);
    assert!(is_hosted(&hosted, "bob@hosted.example"));
    assert!(is_hosted(&hosted, "Bob@HOSTED.Example"));
    assert!(!is_hosted(&hosted, "bob@remote.example"));
}

#[test]
fn an_address_without_a_domain_is_not_hosted() {
    let hosted = hosted(&["hosted.example"]);
    assert!(!is_hosted(&hosted, "bob"));
    assert!(!is_hosted(&hosted, ""));
}

#[test]
fn the_hosted_set_lowers_domains_and_aliases() {
    let set = hosted_domains(&[("Main.Example".to_string(), vec!["ALIAS.example".to_string()])]);
    assert!(is_hosted(&set, "x@main.example"));
    assert!(is_hosted(&set, "x@alias.example"));
    assert!(!is_hosted(&set, "x@other.example"));
}

#[test]
fn a_full_mailbox_refuses_a_local_delivery() {
    assert_eq!(local_attempt(true), DeliveryAttempt::Bounced("552 5.2.2 Mailbox full".into()));
    assert_eq!(local_attempt(false), DeliveryAttempt::Delivered);
}

#[test]
fn a_queued_message_schedules_every_recipient_at_the_first_due_time() {
    let recipients = vec![("a@x.example".to_string(), Expiry::Attempts(5)), ("b@y.example".to_string(), Expiry::At(99))];
    let request = Enqueue { created: 7, return_path: "s@here.example", recipients: &recipients, first_due: 8 };
    let m = queued_message(&request, b"h", b"raw body");
    assert_eq!(m.size, 8);
    assert_eq!(m.created, 7);
    assert_eq!(m.recipients[1], QueueRecipient::new("b@y.example".to_string(), 8, Expiry::At(99)));
}

#[test]
fn retrying_now_moves_only_pending_recipients() {
    let mut done = QueueRecipient::new("done@x.example".to_string(), 5_000, Expiry::Attempts(3));
    done.status = RecipientStatus::Delivered;
    let mut m = message(vec![QueueRecipient::new("a@x.example".to_string(), 5_000, Expiry::Attempts(3)), done.clone()]);
    retry_now(&mut m, 100);
    assert_eq!(m.recipients[0].retry.due, 100);
    assert_eq!(m.recipients[1], done);
}

fn admitted(address: &str, due: u64) -> QueuedMessage {
    message(vec![QueueRecipient::new(address.to_string(), due, Expiry::Attempts(3))])
}

#[test]
fn a_scan_collects_messages_whose_recipients_have_come_due() {
    let batch = scan_due(vec![(1, admitted("a@one.example", 1_000)), (2, admitted("b@two.example", 5_000))], 1_000);
    assert_eq!(batch.messages.len(), 1);
    assert_eq!(batch.messages[0].id, 1);
    assert_eq!(batch.next_due, Some(5_000));
}

#[test]
fn a_scan_with_nothing_due_reports_the_earliest_future_instant() {
    let batch = scan_due(vec![(1, admitted("a@one.example", 4_000)), (2, admitted("b@two.example", 2_500))], 1_000);
    assert!(batch.messages.is_empty());
    assert_eq!(batch.next_due, Some(2_500));
}

#[test]
fn a_completed_message_is_skipped_and_does_not_move_the_wakeup() {
    let mut m = admitted("a@one.example", 1_000);
    m.recipients[0].status = RecipientStatus::Delivered;
    let batch = scan_due(vec![(1, m.clone())], 1_000);
    assert!(batch.messages.is_empty());
    assert_eq!(batch.next_due, None);
    assert!(scan_all(vec![(1, m), (2, admitted("b@x.example", 9))]).len() == 1);
}

#[test]
fn the_next_wakeup_is_capped_at_the_refresh_cadence() {
    assert_eq!(next_wake(1_000, Some(1_030)), 30);
    assert_eq!(next_wake(1_000, Some(1_000 + REFRESH_INTERVAL * 10)), REFRESH_INTERVAL);
    assert_eq!(next_wake(5_000, Some(1_000)), 0);
    assert_eq!(next_wake(5_000, None), REFRESH_INTERVAL);
}

#[test]
fn a_queue_key_carries_its_id_big_endian() {
    assert_eq!(queue_id_of(&[1, 0, 0, 0, 0, 2, 0, 0, 1, 2]), Ok(258));
    assert_eq!(queue_id_of(&[1, 2, 3]), Err(QueueKeyError::TooShort));
}

#[test]
fn a_resolved_account_routes_to_local_delivery() {
    assert_eq!(route_of(&Resolution::Local { account_id: 7 }), LocalRoute::Deliver { account_id: 7 });
    assert_eq!(
        route_of(&Resolution::Forward { destination: "x@y.example".into() }),
        LocalRoute::Redirect { destination: "x@y.example".into() }
    );
    assert_eq!(route_of(&Resolution::Rejected), LocalRoute::Unknown);
    assert_eq!(route_of(&Resolution::Unknown), LocalRoute::Unknown);
}

#[test]
fn a_relay_authentication_rejection_is_classified_as_temporary() {
    let verdict = classify(SendFailure::AuthenticationFailed {
        code: 535,
        message: "authentication credentials invalid".into(),
    });
    assert!(!verdict.is_permanent());
    match verdict {
        DeliveryAttempt::Deferred(reason) => assert!(reason.contains("535"), "{reason}"),
        other => panic!("expected a deferral, got {other:?}"),
    }
}

#[test]
fn the_over_quota_bounce_reports_the_configured_hostname() {
    let message: &[u8] = b"From: someone@example.com\r\nTo: me@example.org\r\nSubject: Hello\r\n\r\nBody text.\r\n";
    let addresses = vec!["ok@d.example".to_string(), "full@d.example".to_string()];
    let report = over_quota_report(&addresses, &[false, true], "sender@remote.example", message.len() as u64, 1_700_000_000)
        .expect("the bounce is queued");
    let dsn = build_dsn(&report, "mx.real.example", message, 1_700_000_000).expect("the DSN body is stored");
    let text = String::from_utf8_lossy(&dsn);
    assert!(text.contains("Reporting-MTA: dns;mx.real.example"), "got: {text}");
    assert!(!text.contains("dns;irixmail"), "got: {text}");
}
