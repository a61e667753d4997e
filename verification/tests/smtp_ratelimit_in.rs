use irixmail::smtp::ratelimit_in::{
    hit, window_key, RateDecision, RateKind, RateLimits, DEFAULT_MAX_CONNECTIONS, DEFAULT_MAX_MESSAGES,
    DEFAULT_WINDOW, TOO_MANY_CONNECTIONS, TOO_MANY_MESSAGES,
};

#[test]
fn ratelimit_in_the_defaults_cap_both_axes() {
    let limits = RateLimits::default();
    assert_eq!(limits.max_connections, DEFAULT_MAX_CONNECTIONS);
    assert_eq!(limits.max_messages, DEFAULT_MAX_MESSAGES);
    assert_eq!(limits.window, DEFAULT_WINDOW);
}

#[test]
fn the_connection_reply_is_a_transient_negative() {
    assert!(TOO_MANY_CONNECTIONS.as_bytes().starts_with(b"421"));
    assert!(TOO_MANY_MESSAGES.as_bytes().starts_with(b"452"));
}

#[test]
fn connections_within_the_allowance_are_admitted_and_counted() {
    let limits = RateLimits { max_connections: 3, max_messages: 0, window: 60 };
    let mut count = 0;
    for _ in 0..3 {
        let (decision, stored) = hit(&limits, RateKind::Connection, count);
        assert!(decision.is_allowed());
        count = stored.unwrap();
    }
    assert_eq!(count, 3);
    let (decision, stored) = hit(&limits, RateKind::Connection, count);
    assert_eq!(decision, RateDecision::Deny(TOO_MANY_CONNECTIONS.as_bytes()));
    assert_eq!(stored, None);
}

#[test]
fn a_zero_limit_or_window_admits_without_counting() {
    let limits = RateLimits { max_connections: 0, max_messages: 5, window: 60 };
    assert_eq!(hit(&limits, RateKind::Connection, 1000), (RateDecision::Allow, None));
    let limits = RateLimits { max_connections: 5, max_messages: 5, window: 0 };
    assert_eq!(hit(&limits, RateKind::Message, 1000), (RateDecision::Allow, None));
}

#[test]
fn the_window_key_names_kind_family_address_and_window() {
    let key = window_key(RateKind::Message, &[198, 51, 100, 7], 125, 60);
    assert_eq!(key, vec![b'r', b'l', b':', b'm', 4, 198, 51, 100, 7, 0, 0, 0, 0, 0, 0, 0, 2]);
}

/// An inbound limiter over an in-memory tally for one window, keyed by the
/// counter key of each kind and source address.
struct RateLimiter {
    limits: RateLimits,
    counts: std::collections::HashMap<Vec<u8>, u32>,
}

impl RateLimiter {
    fn hit_source(&mut self, kind: RateKind, source: &str) -> RateDecision {
        let key = window_key(kind, source.as_bytes(), 0, self.limits.window);
        let current = *self.counts.get(&key).unwrap_or(&0);
        let (decision, stored) = hit(&self.limits, kind, current);
        if let Some(n) = stored {
            self.counts.insert(key, n);
        }
        decision
    }

    fn on_connect(&mut self, source: &str) -> RateDecision {
        self.hit_source(RateKind::Connection, source)
    }

    fn on_message(&mut self, source: &str) -> RateDecision {
        self.hit_source(RateKind::Message, source)
    }
}

fn limiter(max_connections: u32, max_messages: u32) -> RateLimiter {
    RateLimiter { limits: RateLimits { max_connections, max_messages, window: 60 }, counts: std::collections::HashMap::new() }
}

#[test]
fn connections_within_the_allowance_are_admitted() {
    let mut rl = limiter(3, 0);
    let src = "198.51.100.7";
    assert!(rl.on_connect(src).is_allowed());
    assert!(rl.on_connect(src).is_allowed());
    assert!(rl.on_connect(src).is_allowed());
}

#[test]
fn the_connection_over_the_allowance_is_refused() {
    let mut rl = limiter(2, 0);
    let src = "198.51.100.7";
    assert!(rl.on_connect(src).is_allowed());
    assert!(rl.on_connect(src).is_allowed());
    assert_eq!(rl.on_connect(src), RateDecision::Deny(TOO_MANY_CONNECTIONS.as_bytes()));
}

#[test]
fn the_message_over_the_allowance_is_deferred() {
    let mut rl = limiter(0, 1);
    let src = "198.51.100.7";
    assert!(rl.on_message(src).is_allowed());
    assert_eq!(rl.on_message(src), RateDecision::Deny(TOO_MANY_MESSAGES.as_bytes()));
}

#[test]
fn connection_and_message_tallies_do_not_share_a_bucket() {
    let mut rl = limiter(1, 1);
    let src = "203.0.113.9";
    assert!(rl.on_connect(src).is_allowed());
    assert_eq!(rl.on_connect(src), RateDecision::Deny(TOO_MANY_CONNECTIONS.as_bytes()));
    assert!(rl.on_message(src).is_allowed());
}

#[test]
fn each_source_keeps_its_own_tally() {
    let mut rl = limiter(1, 0);
    let one = "198.51.100.1";
    let two = "198.51.100.2";
    assert!(rl.on_connect(one).is_allowed());
    assert_eq!(rl.on_connect(one), RateDecision::Deny(TOO_MANY_CONNECTIONS.as_bytes()));
    assert!(rl.on_connect(two).is_allowed());
}

#[test]
fn ipv4_and_ipv6_sources_are_distinct() {
    let mut rl = limiter(1, 0);
    let v4 = "198.51.100.5";
    let v6 = "2001:db8::5";
    assert!(rl.on_connect(v4).is_allowed());
    assert!(rl.on_connect(v6).is_allowed());
    assert_eq!(rl.on_connect(v4), RateDecision::Deny(TOO_MANY_CONNECTIONS.as_bytes()));
    assert_eq!(rl.on_connect(v6), RateDecision::Deny(TOO_MANY_CONNECTIONS.as_bytes()));
}

#[test]
fn a_zero_limit_disables_the_check() {
    let mut rl = limiter(0, 0);
    let src = "198.51.100.7";
    for _ in 0..1000 {
        assert!(rl.on_connect(src).is_allowed());
        assert!(rl.on_message(src).is_allowed());
    }
}

#[test]
fn a_refusal_does_not_consume_further_allowance() {
    let mut rl = limiter(1, 0);
    let src = "198.51.100.7";
    assert!(rl.on_connect(src).is_allowed());
    assert_eq!(rl.on_connect(src), RateDecision::Deny(TOO_MANY_CONNECTIONS.as_bytes()));
    assert_eq!(rl.on_connect(src), RateDecision::Deny(TOO_MANY_CONNECTIONS.as_bytes()));
}
