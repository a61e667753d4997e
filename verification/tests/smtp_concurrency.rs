use irixmail::smtp::concurrency::{ConcurrencyLimiter, DEFAULT_MAX_PER_DESTINATION};

#[test]
fn attempts_within_the_cap_each_take_a_slot() {
    let mut limiter = ConcurrencyLimiter::new(3);
    let _a = limiter.acquire("mail.example.com").expect("first");
    let _b = limiter.acquire("mail.example.com").expect("second");
    let _c = limiter.acquire("mail.example.com").expect("third");
    assert_eq!(limiter.in_flight("mail.example.com"), 3);
}

#[test]
fn the_attempt_over_the_cap_is_refused() {
    let mut limiter = ConcurrencyLimiter::new(2);
    let _a = limiter.acquire("mail.example.com").expect("first");
    let _b = limiter.acquire("mail.example.com").expect("second");
    assert!(limiter.acquire("mail.example.com").is_none());
}

#[test]
fn dropping_a_slot_frees_a_place_for_the_next_attempt() {
    let mut limiter = ConcurrencyLimiter::new(1);
    let slot = limiter.acquire("mail.example.com").expect("first");
    assert!(limiter.acquire("mail.example.com").is_none());
    limiter.release(slot);
    assert!(limiter.acquire("mail.example.com").is_some());
}

#[test]
fn distinct_destinations_are_capped_independently() {
    let mut limiter = ConcurrencyLimiter::new(1);
    let _one = limiter.acquire("mail.one.example").expect("one");
    assert!(limiter.acquire("mail.one.example").is_none());
    assert!(limiter.acquire("mail.two.example").is_some());
}

#[test]
fn a_destination_with_no_live_attempt_is_forgotten() {
    let mut limiter = ConcurrencyLimiter::new(2);
    {
        let slot = limiter.acquire("mail.example.com").expect("slot");
        assert_eq!(limiter.in_flight("mail.example.com"), 1);
        assert_eq!(slot.destination(), "mail.example.com");
        limiter.release(slot);
    }
    assert_eq!(limiter.in_flight("mail.example.com"), 0);
    assert_eq!(limiter.destinations_kept(), 0);
}

#[test]
fn a_zero_cap_disables_the_limit() {
    let mut limiter = ConcurrencyLimiter::new(0);
    let mut slots = Vec::new();
    for _ in 0..1000 {
        slots.push(limiter.acquire("mail.example.com").expect("granted"));
    }
    assert_eq!(limiter.in_flight("mail.example.com"), 1000);
}

#[test]
fn the_default_cap_bounds_a_single_destination() {
    let mut limiter = ConcurrencyLimiter::default();
    assert_eq!(limiter.max_per_destination(), DEFAULT_MAX_PER_DESTINATION);
    let mut slots = Vec::new();
    for _ in 0..DEFAULT_MAX_PER_DESTINATION {
        slots.push(limiter.acquire("mail.example.com").expect("granted"));
    }
    assert!(limiter.acquire("mail.example.com").is_none());
}

#[test]
fn releasing_every_slot_restores_the_full_allowance() {
    let mut limiter = ConcurrencyLimiter::new(2);
    let a = limiter.acquire("mx.example").expect("a");
    let b = limiter.acquire("mx.example").expect("b");
    limiter.release(a);
    limiter.release(b);
    assert_eq!(limiter.in_flight("mx.example"), 0);
    assert!(limiter.acquire("mx.example").is_some());
    assert!(limiter.acquire("mx.example").is_some());
    assert!(limiter.acquire("mx.example").is_none());
}
