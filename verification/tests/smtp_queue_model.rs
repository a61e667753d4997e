use irixmail::smtp::queue_model::{Expiry, NotifySchedule, QueueRecipient, QueuedMessage, RecipientStatus, RetrySchedule};

fn message() -> QueuedMessage {
    QueuedMessage::new(
        1_000,
        &[1, 2, 3, 4],
        512,
        "sender@example.com".to_string(),
        vec![
            QueueRecipient::new("a@one.example".to_string(), 1_000, Expiry::At(5_000)),
            QueueRecipient::new("b@two.example".to_string(), 2_000, Expiry::Attempts(5)),
        ],
    )
}

#[test]
fn a_scheduled_recipient_is_pending_and_a_delivered_one_is_settled() {
    assert!(RecipientStatus::Scheduled.is_pending());
    assert!(RecipientStatus::Deferred("4xx".into()).is_pending());
    assert!(RecipientStatus::Delivered.is_settled());
    assert!(RecipientStatus::Bounced("5xx".into()).is_settled());
}

#[test]
fn a_retry_is_due_once_its_instant_has_passed() {
    let retry = RetrySchedule::first(1_000);
    assert_eq!(retry.attempts, 0);
    assert!(!retry.is_due(999));
    assert!(retry.is_due(1_000));
    assert!(retry.is_due(1_001));
}

#[test]
fn a_warning_is_due_once_its_instant_has_passed() {
    let notify = NotifySchedule::first(2_000);
    assert_eq!(notify.sent, 0);
    assert!(!notify.is_due(1_999));
    assert!(notify.is_due(2_000));
}

#[test]
fn a_time_expiry_lapses_at_its_deadline_regardless_of_attempts() {
    let expiry = Expiry::At(5_000);
    assert!(!expiry.is_expired(99, 4_999));
    assert!(expiry.is_expired(0, 5_000));
}

#[test]
fn an_attempt_expiry_lapses_once_the_cap_is_reached() {
    let expiry = Expiry::Attempts(3);
    assert!(!expiry.is_expired(2, u64::MAX));
    assert!(expiry.is_expired(3, 0));
    assert!(expiry.is_expired(4, 0));
}

#[test]
fn a_recipient_yields_the_domain_after_its_at_sign() {
    let rcpt = QueueRecipient::new("user@mail.example.org".to_string(), 0, Expiry::Attempts(1));
    assert_eq!(rcpt.domain(), "mail.example.org");
    let bare = QueueRecipient::new("malformed".to_string(), 0, Expiry::Attempts(1));
    assert_eq!(bare.domain(), "");
}

#[test]
fn a_recipient_is_due_only_while_pending_and_past_its_retry() {
    let mut rcpt = QueueRecipient::new("a@one.example".to_string(), 1_000, Expiry::Attempts(5));
    assert!(!rcpt.is_due(999));
    assert!(rcpt.is_due(1_000));
    rcpt.status = RecipientStatus::Delivered;
    assert!(!rcpt.is_due(1_000));
}

#[test]
fn next_due_is_the_earliest_pending_recipient_instant() {
    let mut msg = message();
    assert_eq!(msg.next_due(), Some(1_000));
    msg.recipients[0].status = RecipientStatus::Delivered;
    assert_eq!(msg.next_due(), Some(2_000));
    msg.recipients[1].status = RecipientStatus::Bounced("5xx".into());
    assert_eq!(msg.next_due(), None);
}

#[test]
fn a_message_has_a_due_recipient_once_any_pending_one_comes_due() {
    let msg = message();
    assert!(!msg.has_due_recipient(999));
    assert!(msg.has_due_recipient(1_000));
}

#[test]
fn a_message_is_complete_only_when_every_recipient_is_settled() {
    let mut msg = message();
    assert!(!msg.is_complete());
    msg.recipients[0].status = RecipientStatus::Delivered;
    assert!(!msg.is_complete());
    msg.recipients[1].status = RecipientStatus::Bounced("5xx".into());
    assert!(msg.is_complete());
}


