use std::collections::HashMap;

use irixmail::smtp::queue_deliver::{rate_gate, RateGate, RATE_LIMITED};
use irixmail::smtp::queue_model::{Expiry, QueueRecipient, QueuedMessage, RecipientStatus};
use irixmail::smtp::ratelimit_out::{
    decide, identities, Axis, OutboundDecision, OutboundLimits, OutboundRecord, DEFAULT_MAX_PER_DOMAIN, DEFAULT_WINDOW,
};

/// An outbound limiter over an in-memory tally for one window.
struct OutboundLimiter {
    limits: OutboundLimits,
    senders: HashMap<String, u32>,
    domains: HashMap<String, u32>,
}

impl OutboundLimiter {
    fn limits(&self) -> OutboundLimits {
        self.limits
    }

    fn check(&mut self, sender: &str) -> OutboundDecision {
        let (sender, domain) = identities(sender);
        let sender_count = *self.senders.get(&sender).unwrap_or(&0);
        let domain_count = *self.domains.get(&domain).unwrap_or(&0);
        let (decision, record) = decide(&self.limits, sender_count, domain_count);
        if let Some(n) = record.sender {
            self.senders.insert(sender, n);
        }
        if let Some(n) = record.domain {
            self.domains.insert(domain, n);
        }
        decision
    }
}

fn limiter(max_per_sender: u32, max_per_domain: u32) -> OutboundLimiter {
    OutboundLimiter {
        limits: OutboundLimits { max_per_sender, max_per_domain, window: 3600 },
        senders: HashMap::new(),
        domains: HashMap::new(),
    }
}

#[test]
fn sends_within_the_sender_allowance_are_admitted() {
    let mut rl = limiter(3, 0);
    assert!(rl.check("a@example.com").is_allowed());
    assert!(rl.check("a@example.com").is_allowed());
    assert!(rl.check("a@example.com").is_allowed());
}

#[test]
fn the_send_over_the_sender_allowance_is_refused() {
    let mut rl = limiter(2, 0);
    assert!(rl.check("a@example.com").is_allowed());
    assert!(rl.check("a@example.com").is_allowed());
    assert_eq!(rl.check("a@example.com"), OutboundDecision::Deny(Axis::Sender));
}

#[test]
fn the_send_over_the_domain_allowance_is_refused() {
    let mut rl = limiter(0, 2);
    assert!(rl.check("a@example.com").is_allowed());
    assert!(rl.check("b@example.com").is_allowed());
    assert_eq!(rl.check("c@example.com"), OutboundDecision::Deny(Axis::Domain));
}

#[test]
fn the_domain_allowance_pools_every_sender_in_the_domain() {
    let mut rl = limiter(0, 3);
    assert!(rl.check("a@example.com").is_allowed());
    assert!(rl.check("b@example.com").is_allowed());
    assert!(rl.check("c@example.com").is_allowed());
    assert_eq!(rl.check("d@example.com"), OutboundDecision::Deny(Axis::Domain));
}

#[test]
fn distinct_domains_keep_independent_tallies() {
    let mut rl = limiter(0, 1);
    assert!(rl.check("a@one.example").is_allowed());
    assert_eq!(rl.check("b@one.example"), OutboundDecision::Deny(Axis::Domain));
    assert!(rl.check("c@two.example").is_allowed());
}

#[test]
fn a_sender_refusal_leaves_the_domain_tally_untouched() {
    let mut rl = limiter(1, 5);
    assert!(rl.check("a@example.com").is_allowed());
    assert_eq!(rl.check("a@example.com"), OutboundDecision::Deny(Axis::Sender));
    assert!(rl.check("b@example.com").is_allowed());
    assert!(rl.check("c@example.com").is_allowed());
    assert!(rl.check("d@example.com").is_allowed());
}

#[test]
fn the_sender_is_matched_without_regard_to_case() {
    let mut rl = limiter(1, 0);
    assert!(rl.check("User@Example.com").is_allowed());
    assert_eq!(rl.check("user@example.com"), OutboundDecision::Deny(Axis::Sender));
}

#[test]
fn a_zero_limit_on_an_axis_disables_that_axis() {
    let mut rl = limiter(0, 2);
    assert!(rl.check("a@example.com").is_allowed());
    assert!(rl.check("a@example.com").is_allowed());
    assert_eq!(rl.check("a@example.com"), OutboundDecision::Deny(Axis::Domain));
}

#[test]
fn both_axes_zero_admits_every_send() {
    let mut rl = limiter(0, 0);
    assert!(rl.limits().is_disabled());
    for _ in 0..1000 {
        assert!(rl.check("a@example.com").is_allowed());
    }
}

#[test]
fn a_disabled_window_admits_every_send() {
    let mut rl = OutboundLimiter {
        limits: OutboundLimits { max_per_sender: 1, max_per_domain: 1, window: 0 },
        senders: HashMap::new(),
        domains: HashMap::new(),
    };
    assert!(rl.limits().is_disabled());
    for _ in 0..1000 {
        assert!(rl.check("a@example.com").is_allowed());
    }
}

#[test]
fn a_repeated_refusal_does_not_consume_further_allowance() {
    let mut rl = limiter(1, 0);
    assert!(rl.check("a@example.com").is_allowed());
    assert_eq!(rl.check("a@example.com"), OutboundDecision::Deny(Axis::Sender));
    assert_eq!(rl.check("a@example.com"), OutboundDecision::Deny(Axis::Sender));
}

#[test]
fn a_bare_sender_falls_under_the_empty_domain() {
    let mut rl = limiter(0, 1);
    assert!(rl.check("postmaster").is_allowed());
    assert_eq!(rl.check("hostmaster"), OutboundDecision::Deny(Axis::Domain));
}

#[test]
fn settings_fields_set_the_allowances_and_missing_ones_keep_the_defaults() {
    let limits = OutboundLimits::from_fields(Some(Some(1)), Some(None));
    assert_eq!(limits, OutboundLimits { max_per_sender: 1, max_per_domain: DEFAULT_MAX_PER_DOMAIN, window: DEFAULT_WINDOW });
    assert_eq!(OutboundLimits::from_fields(None, None), OutboundLimits::default());
    assert_eq!(OutboundLimits::from_fields(Some(Some(7)), Some(Some(9))).max_per_domain, 9);
}

#[test]
fn the_window_ends_at_the_next_multiple_after_now() {
    let limits = OutboundLimits { max_per_sender: 1, max_per_domain: 0, window: 3600 };
    assert_eq!(limits.window_end(7_200), 10_800);
    assert_eq!(limits.window_end(7_201), 10_800);
    let unwindowed = OutboundLimits { max_per_sender: 1, max_per_domain: 0, window: 0 };
    assert_eq!(unwindowed.window_end(5), 6);
}

#[test]
fn a_pass_over_the_sender_rate_holds_due_recipients_without_an_attempt() {
    let limits = OutboundLimits::from_fields(Some(Some(1)), None);
    let now = 10_000;
    let mut due = QueueRecipient::new("a@one.example".to_string(), 9_000, Expiry::Attempts(5));
    due.retry.attempts = 2;
    let later = QueueRecipient::new("b@two.example".to_string(), 50_000, Expiry::Attempts(5));
    let mut message = QueuedMessage::new(9_000, b"hash", 10, "s@example.com".to_string(), vec![due, later.clone()]);
    // one message of this sender was already admitted in this window
    let gate = rate_gate(&mut message, &limits, 1, 1, now);
    assert_eq!(gate, RateGate::Held);
    assert_eq!(message.recipients[0].status, RecipientStatus::Deferred(RATE_LIMITED.to_string()));
    assert_eq!(message.recipients[0].retry.attempts, 2);
    assert_eq!(message.recipients[0].retry.due, (now / 3600 + 1) * 3600);
    assert!(message.recipients[0].retry.due > now);
    assert_eq!(message.recipients[1], later);
}

#[test]
fn a_pass_within_the_rate_proceeds_and_counts_the_send() {
    let limits = OutboundLimits::from_fields(Some(Some(1)), None);
    let due = QueueRecipient::new("a@one.example".to_string(), 9_000, Expiry::Attempts(5));
    let mut message = QueuedMessage::new(9_000, b"hash", 10, "s@example.com".to_string(), vec![due]);
    let before = message.clone();
    let gate = rate_gate(&mut message, &limits, 0, 4, 10_000);
    assert_eq!(gate, RateGate::Proceed(OutboundRecord { sender: Some(1), domain: Some(5) }));
    assert_eq!(message, before);
    let gate = rate_gate(&mut message, &limits, 5, 5, 1_000);
    assert_eq!(gate, RateGate::Proceed(OutboundRecord { sender: None, domain: None }));
}
