use std::collections::HashSet;

use irixmail::smtp::greylist::{after_lookup, needs_lookup, pair_key, GreylistConfig, GreylistDecision, DEFERRED};
use irixmail::smtp::spf::{SpfDecision, SpfStage, SpfVerdict};

/// A greylist over an in-memory set of seen pairs; `failing` makes every
/// lookup fail as a broken store would.
struct Greylist {
    config: GreylistConfig,
    seen: HashSet<Vec<u8>>,
    failing: bool,
}

impl Greylist {
    fn check(&mut self, from: &str, rcpt: &str, authenticated: bool) -> Result<GreylistDecision, ()> {
        if !needs_lookup(&self.config, authenticated) {
            return Ok(GreylistDecision::Allow);
        }
        if self.failing {
            return Err(());
        }
        let key = pair_key(from, rcpt);
        let (decision, record) = after_lookup(Some(self.seen.contains(&key)));
        if record {
            self.seen.insert(key);
        }
        Ok(decision)
    }

    fn check_or_allow(&mut self, from: &str, rcpt: &str, authenticated: bool) -> GreylistDecision {
        match self.check(from, rcpt, authenticated) {
            Ok(decision) => decision,
            Err(()) => after_lookup(None).0,
        }
    }
}

fn greylist(window: u64) -> Greylist {
    Greylist { config: GreylistConfig { window }, seen: HashSet::new(), failing: false }
}

const HOUR: u64 = 3600;

#[test]
fn a_first_sighting_is_deferred() {
    let mut gl = greylist(HOUR);
    assert_eq!(gl.check("a@b.example", "c@d.example", false).unwrap(), GreylistDecision::Defer(DEFERRED.as_bytes()));
}

#[test]
fn an_immediate_retry_is_admitted_with_no_minimum_delay() {
    let mut gl = greylist(HOUR);
    assert!(!gl.check("a@b.example", "c@d.example", false).unwrap().is_allowed());
    assert!(gl.check("a@b.example", "c@d.example", false).unwrap().is_allowed());
}

#[test]
fn an_authenticated_session_is_exempt() {
    let mut gl = greylist(HOUR);
    assert!(gl.check("a@b.example", "c@d.example", true).unwrap().is_allowed());
}

#[test]
fn the_default_config_is_disabled_and_admits_everything() {
    let mut gl = greylist(GreylistConfig::default().window);
    assert!(gl.config.is_disabled());
    for _ in 0..100 {
        assert!(gl.check("a@b.example", "c@d.example", false).unwrap().is_allowed());
    }
}

#[test]
fn a_different_sender_starts_a_fresh_challenge() {
    let mut gl = greylist(HOUR);
    assert!(!gl.check("one@b.example", "c@d.example", false).unwrap().is_allowed());
    assert!(!gl.check("two@b.example", "c@d.example", false).unwrap().is_allowed());
}

#[test]
fn a_different_recipient_starts_a_fresh_challenge() {
    let mut gl = greylist(HOUR);
    assert!(!gl.check("a@b.example", "one@d.example", false).unwrap().is_allowed());
    assert!(!gl.check("a@b.example", "two@d.example", false).unwrap().is_allowed());
}

#[test]
fn the_pair_is_matched_without_regard_to_case() {
    let mut gl = greylist(HOUR);
    assert!(!gl.check("A@B.Example", "C@D.Example", false).unwrap().is_allowed());
    assert!(gl.check("a@b.example", "c@d.example", false).unwrap().is_allowed());
}

#[test]
fn adjacent_address_bytes_do_not_collide_on_one_key() {
    let mut gl = greylist(HOUR);
    assert!(!gl.check("ab", "cd", false).unwrap().is_allowed());
    assert!(!gl.check("a", "bcd", false).unwrap().is_allowed());
}

#[test]
fn a_store_error_surfaces_and_the_wrapper_accepts() {
    let mut gl = Greylist { config: GreylistConfig { window: HOUR }, seen: HashSet::new(), failing: true };
    assert!(gl.check("a@b.example", "c@d.example", false).is_err());
    assert!(gl.check_or_allow("a@b.example", "c@d.example", false).is_allowed());
}

#[test]
fn only_a_pass_is_treated_as_authorised() {
    let domain = "sender.example".to_string();
    for (result, expected) in [
        (SpfVerdict::Pass, true),
        (SpfVerdict::Fail, false),
        (SpfVerdict::SoftFail, false),
        (SpfVerdict::Neutral, false),
        (SpfVerdict::Unknown, false),
        (SpfVerdict::TempError, false),
        (SpfVerdict::PermError, false),
    ] {
        let decision = SpfDecision { stage: SpfStage::MailFrom, domain: domain.clone(), result };
        assert_eq!(decision.passed(), expected);
    }
}
