use irixmail::smtp::queue_enqueue::{queued_message, retry_now, Enqueue};
use irixmail::smtp::queue_manager::{next_wake, queue_id_of, scan_all, scan_due, REFRESH_INTERVAL};
use irixmail::smtp::queue_local::{hosted_domains, route_of, LocalRoute, Resolution};
use irixmail::smtp::queue_model::{Expiry, QueuedMessage, RecipientStatus};

const BODY: &[u8] = b"From: s@example.com\r\nTo: a@one.example\r\n\r\nHello.\r\n";

/// A message as the queue admits it for one recipient, first due at `first_due`.
fn queued_for(address: &str, first_due: u64) -> QueuedMessage {
    let recipients = vec![(address.to_string(), Expiry::Attempts(5))];
    let request = Enqueue { created: first_due, return_path: "s@example.com", recipients: &recipients, first_due };
    queued_message(&request, b"hash", BODY)
}

/// The stored key of a queued message: subspace, account, collection, id.
fn queue_key(id: u32) -> Vec<u8> {
    let mut key = vec![1u8, 0, 0, 0, 0, 2];
    key.extend_from_slice(&id.to_be_bytes());
    key
}

#[test]
fn a_full_scan_lists_messages_that_are_not_yet_due() {
    let records = vec![(1u32, queued_for("a@one.example", 5_000))];
    let all = scan_all(records.clone());
    assert_eq!(all.len(), 1);
    assert_eq!(all[0].id, 1);
    assert_eq!(all[0].message.return_path, "s@example.com");
    assert!(scan_due(records, 1_000).messages.is_empty());
}

#[test]
fn a_full_scan_skips_completed_messages() {
    let mut message = queued_for("a@one.example", 1_000);
    message.recipients[0].status = RecipientStatus::Delivered;
    assert!(scan_all(vec![(1u32, message)]).is_empty());
}

#[test]
fn an_empty_queue_yields_an_empty_batch_with_no_wakeup() {
    let batch = scan_due(Vec::new(), 9_000);
    assert!(batch.messages.is_empty());
    assert_eq!(batch.next_due, None);
}

#[test]
fn the_next_wakeup_takes_an_imminent_due_time_over_the_refresh_cadence() {
    let now = 1_000;
    let soon = next_wake(now, Some(now + 30));
    let cadence = next_wake(now, None);
    assert!(soon < cadence);
}

#[test]
fn the_next_wakeup_caps_a_distant_due_time_at_the_refresh_cadence() {
    let now = 1_000;
    let distant = next_wake(now, Some(now + REFRESH_INTERVAL * 10));
    let cadence = next_wake(now, None);
    let skew = distant.saturating_sub(cadence);
    assert!(skew <= 1);
}

#[test]
fn a_past_due_time_wakes_the_manager_at_once() {
    let now = 5_000;
    let wake = next_wake(now, Some(1_000));
    assert_eq!(wake, 0);
}

#[test]
fn the_queue_id_reads_back_from_an_encoded_key() {
    let key = queue_key(0x0102_0304);
    assert_eq!(queue_id_of(&key).expect("id"), 0x0102_0304);
}

#[test]
fn a_truncated_key_is_rejected_rather_than_read_past_its_end() {
    assert!(queue_id_of(&[0u8; 3]).is_err());
}

#[test]
fn a_retry_pulls_pending_recipients_forward_and_leaves_settled_ones_alone() {
    let recipients = vec![
        ("a@one.example".to_string(), Expiry::Attempts(5)),
        ("b@two.example".to_string(), Expiry::Attempts(5)),
    ];
    let request = Enqueue { created: 1_000, return_path: "s@example.com", recipients: &recipients, first_due: 5_000 };
    let mut message = queued_message(&request, b"hash", BODY);
    message.recipients[1].status = RecipientStatus::Delivered;

    retry_now(&mut message, 2_000);

    assert_eq!(message.recipients[0].retry.due, 2_000);
    assert_eq!(message.recipients[1].retry.due, 5_000);
}

#[test]
fn a_message_with_no_recipients_is_complete_at_once() {
    let recipients: Vec<(String, Expiry)> = Vec::new();
    let request = Enqueue { created: 1_000, return_path: "s@example.com", recipients: &recipients, first_due: 1_000 };
    let message = queued_message(&request, b"hash", BODY);
    assert!(message.recipients.is_empty());
    assert!(message.is_complete());
    assert_eq!(message.next_due(), None);
}

#[test]
fn a_forward_entry_routes_to_its_destination() {
    let resolution = Resolution::Forward { destination: "elsewhere@remote.example".to_string() };
    assert_eq!(route_of(&resolution), LocalRoute::Redirect { destination: "elsewhere@remote.example".to_string() });
}

#[test]
fn a_rejected_or_unknown_address_routes_to_a_bounce() {
    assert_eq!(route_of(&Resolution::Rejected), LocalRoute::Unknown);
    assert_eq!(route_of(&Resolution::Unknown), LocalRoute::Unknown);
}

#[test]
fn hosted_domains_include_aliases() {
    let domains = vec![("hosted.example".to_string(), vec!["alt.example".to_string()])];
    let hosted = hosted_domains(&domains);
    assert!(hosted.iter().any(|d| d == "hosted.example"));
    assert!(hosted.iter().any(|d| d == "alt.example"));
    assert!(!hosted.iter().any(|d| d == "remote.example"));
}
