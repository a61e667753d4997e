use irixmail::smtp::arc::ArcDecision;
use irixmail::smtp::dkim_verify::{DkimDecision, DkimSignatureResult, DkimVerdict};
use irixmail::smtp::dmarc::{action_for, DmarcAction, DmarcPolicy};
use irixmail::smtp::dnsbl::{
    after_zone, decide as dnsbl_decide, DnsblConfig, DnsblDecision, DnsblListing, DnsblStep, ZoneLookup, DEFAULT_ZONE, LISTED,
};
use irixmail::smtp::spam_decision::{DEFERRED, REJECTED};
use irixmail::smtp::spf::SpfConfig;

#[test]
fn only_a_pass_chain_authenticates_the_message() {
    let decision = ArcDecision {
        result: DkimVerdict::Pass,
        instances: 2,
    };
    assert!(decision.passed());
    assert!(decision.present());
    assert!(!decision.temp_error());
}

#[test]
fn arc_a_transient_failure_is_reported_without_a_pass() {
    let decision = ArcDecision {
        result: DkimVerdict::TempError,
        instances: 1,
    };
    assert!(!decision.passed());
    assert!(decision.temp_error());
}

#[test]
fn an_empty_chain_is_neither_present_nor_passing() {
    let decision = ArcDecision {
        result: DkimVerdict::Unknown,
        instances: 0,
    };
    assert!(!decision.present());
    assert!(!decision.passed());
}

#[test]
fn only_a_pass_signature_authenticates_the_message() {
    let decision = DkimDecision {
        signatures: vec![
            DkimSignatureResult {
                domain: "fail.example".to_string(),
                result: DkimVerdict::Fail,
            },
            DkimSignatureResult {
                domain: "good.example".to_string(),
                result: DkimVerdict::Pass,
            },
        ],
    };
    assert!(decision.pass());
    assert!(!decision.temp_error());
}

#[test]
fn dkim_verify_a_transient_failure_is_reported_without_a_pass() {
    let decision = DkimDecision {
        signatures: vec![DkimSignatureResult {
            domain: "sender.example".to_string(),
            result: DkimVerdict::TempError,
        }],
    };
    assert!(!decision.pass());
    assert!(decision.temp_error());
}

#[test]
fn an_empty_decision_neither_passes_nor_defers() {
    let decision = DkimDecision::default();
    assert!(!decision.pass());
    assert!(!decision.temp_error());
}

#[test]
fn the_default_config_checks_the_spamhaus_zone() {
    let config = DnsblConfig::default();
    assert_eq!(config.zones, vec![DEFAULT_ZONE.to_string()]);
    assert!(!config.is_empty());
}

#[test]
fn an_empty_zone_list_is_reported_as_empty() {
    let config = DnsblConfig { zones: Vec::new() };
    assert!(config.is_empty());
}

#[test]
fn the_allow_decision_is_permitted() {
    assert!(DnsblDecision::Allow.is_allowed());
}

#[test]
fn the_first_listing_zone_refuses_the_connection() {
    let config = DnsblConfig {
        zones: vec!["a.example".to_string(), "b.example".to_string(), "c.example".to_string()],
    };
    let listing = DnsblListing { codes: vec![[127, 0, 0, 2]], reason: Some("listed".to_string()) };
    let other = DnsblListing { codes: vec![[127, 0, 0, 4]], reason: None };
    let decision = dnsbl_decide(
        &config,
        vec![ZoneLookup::Failed, ZoneLookup::Listed(listing.clone()), ZoneLookup::Listed(other)],
    );
    assert!(!decision.is_allowed());
    match decision {
        DnsblDecision::Reject { zone, listing: found, reply } => {
            assert_eq!(zone, "b.example");
            assert_eq!(found, listing);
            assert_eq!(reply, LISTED.as_bytes());
            assert!(reply.starts_with(b"554"));
        }
        DnsblDecision::Allow => unreachable!(),
    }
    assert!(dnsbl_decide(&config, vec![ZoneLookup::Clear, ZoneLookup::Failed, ZoneLookup::Clear]).is_allowed());
}

#[test]
fn the_zones_are_looked_up_in_turn_until_one_lists_the_address() {
    let config = DnsblConfig { zones: vec!["a.example".to_string(), "b.example".to_string()] };
    assert_eq!(after_zone(&config, 0, ZoneLookup::Failed), DnsblStep::Next(1));
    assert_eq!(after_zone(&config, 0, ZoneLookup::Clear), DnsblStep::Next(1));
    assert_eq!(after_zone(&config, 1, ZoneLookup::Clear), DnsblStep::Decided(DnsblDecision::Allow));
    let listing = DnsblListing { codes: vec![[127, 0, 0, 2]], reason: None };
    assert_eq!(
        after_zone(&config, 0, ZoneLookup::Listed(listing.clone())),
        DnsblStep::Decided(DnsblDecision::Reject { zone: "a.example".to_string(), listing, reply: LISTED.as_bytes() })
    );
}

#[test]
fn the_reject_and_defer_replies_are_the_expected_codes() {
    assert!(REJECTED.as_bytes().starts_with(b"550"));
    assert!(DEFERRED.as_bytes().starts_with(b"451"));
}

#[test]
fn the_config_carries_the_host_domain() {
    let config = SpfConfig::new("mail.example".to_string());
    assert_eq!(config.host_domain, "mail.example");
}

#[test]
fn an_aligned_message_passes_under_every_policy() {
    for policy in [
        DmarcPolicy::NoPolicy,
        DmarcPolicy::Quarantine,
        DmarcPolicy::Reject,
        DmarcPolicy::Unspecified,
    ] {
        assert_eq!(action_for(policy, true), DmarcAction::Pass);
    }
}

#[test]
fn an_unaligned_message_follows_the_published_policy() {
    assert_eq!(action_for(DmarcPolicy::Reject, false), DmarcAction::Reject);
    assert_eq!(action_for(DmarcPolicy::Quarantine, false), DmarcAction::Quarantine);
    assert_eq!(action_for(DmarcPolicy::NoPolicy, false), DmarcAction::Pass);
    assert_eq!(action_for(DmarcPolicy::Unspecified, false), DmarcAction::Pass);
}
