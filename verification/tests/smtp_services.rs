use irixmail::smtp::mx_resolve::{hosts_to_try, is_null_mx, resolution_of, MailExchange, MxResolution, MxTarget};
use irixmail::smtp::ratelimit_in::RateLimits;
use irixmail::smtp::session_services::{for_connection, tune_connection};
use irixmail::smtp::dnsbl::{DnsblDecision, DnsblListing, DEFAULT_ZONE, LISTED};

fn exchange(preference: u16, host: &str) -> MailExchange {
    MailExchange { preference, host: host.to_string() }
}

#[test]
fn a_root_exchange_at_zero_preference_is_a_null_mx() {
    assert!(is_null_mx(&[exchange(0, ".")]));
    assert!(is_null_mx(&[exchange(0, "")]));
}

#[test]
fn an_ordinary_exchange_is_not_a_null_mx() {
    assert!(!is_null_mx(&[exchange(10, "mail.example.com")]));
}

#[test]
fn a_root_exchange_at_nonzero_preference_is_not_a_null_mx() {
    assert!(!is_null_mx(&[exchange(10, ".")]));
}

#[test]
fn several_exchanges_are_never_a_null_mx() {
    assert!(!is_null_mx(&[exchange(0, "."), exchange(10, "mail.example.com")]));
}

#[test]
fn an_empty_exchange_list_is_not_a_null_mx() {
    assert!(!is_null_mx(&[]));
}

#[test]
fn a_domain_without_mx_is_its_own_exchange() {
    assert_eq!(hosts_to_try("example.com", vec![]), Some(vec!["example.com".to_string()]));
    assert_eq!(hosts_to_try("example.com", vec![exchange(0, ".")]), None);
    assert_eq!(
        hosts_to_try("example.com", vec![exchange(10, "a.example.com"), exchange(20, "b.example.com")]),
        Some(vec!["a.example.com".to_string(), "b.example.com".to_string()])
    );
}

#[test]
fn exchanges_without_addresses_are_dropped() {
    let with = MxTarget { host: "a".to_string(), ips: vec!["192.0.2.1".to_string()] };
    let without = MxTarget { host: "b".to_string(), ips: vec![] };
    assert_eq!(resolution_of(vec![without.clone()]), MxResolution::Unresolvable);
    assert_eq!(resolution_of(vec![without, with.clone()]), MxResolution::Targets(vec![with]));
}

#[test]
fn the_resolution_variants_compare_by_value() {
    assert_eq!(MxResolution::NoMailAccepted, MxResolution::NoMailAccepted);
    assert_eq!(MxResolution::Unresolvable, MxResolution::Unresolvable);
    assert_ne!(MxResolution::NoMailAccepted, MxResolution::Unresolvable);
}

fn limits() -> RateLimits {
    RateLimits { max_connections: 10, max_messages: 20, window: 60 }
}

#[test]
fn stored_settings_tune_the_connection() {
    let settings = br#"{"antiSpam":{"dnsblZones":["zen.example",7,"bl.example"],"greylistWindowSeconds":120},"rateLimits":{"maxConnectionsPerIp":1}}"#;
    let tuning = for_connection(Some(settings), limits());
    assert_eq!(tuning.dnsbl_zones, Some(vec!["zen.example".to_string(), "bl.example".to_string()]));
    assert_eq!(tuning.greylist_window, Some(120));
    assert_eq!(tuning.limits, RateLimits { max_connections: 1, max_messages: 20, window: 60 });
}

#[test]
fn absent_or_broken_settings_change_nothing() {
    let none = for_connection(None, limits());
    assert!(none.dnsbl_zones.is_none() && none.greylist_window.is_none());
    assert_eq!(none.limits, limits());
    let broken = for_connection(Some(b"not json"), limits());
    assert!(broken.dnsbl_zones.is_none() && broken.greylist_window.is_none());
    assert_eq!(broken.limits, limits());
}

use irixmail::smtp::dkim_verify::{is_insecure, DkimDecision, DkimOutput, DkimVerdict, SignatureAlgorithm};
use irixmail::smtp::dmarc::{decision_of, DmarcAction, DmarcDecision, DmarcPolicy, DmarcResult};
use irixmail::smtp::inbound::{dkim_method, dmarc_method, spf_method, unevaluated_dmarc, MethodResult};
use irixmail::smtp::session::reply_code;
use irixmail::smtp::spf::{SpfDecision, SpfStage, SpfVerdict};

#[test]
fn a_pass_decision_reports_alignment() {
    let decision = DmarcDecision {
        domain: "sender.example".to_string(),
        result: DmarcResult::Pass,
        policy: DmarcPolicy::Reject,
        action: DmarcAction::Pass,
        temp_error: false,
    };
    assert!(decision.pass());
}

#[test]
fn a_non_pass_result_does_not_report_alignment() {
    let decision = DmarcDecision {
        domain: "sender.example".to_string(),
        result: DmarcResult::Unknown,
        policy: DmarcPolicy::NoPolicy,
        action: DmarcAction::Pass,
        temp_error: false,
    };
    assert!(!decision.pass());
}

#[test]
fn an_unevaluated_decision_passes_without_alignment() {
    let decision = unevaluated_dmarc();
    assert!(!decision.pass());
    assert_eq!(decision.action, DmarcAction::Pass);
}

#[test]
fn an_aligned_identifier_passes_dmarc_whatever_the_policy() {
    let d = decision_of("s.example".into(), DmarcResult::Fail, DmarcResult::Pass, DmarcPolicy::Reject);
    assert_eq!(d.result, DmarcResult::Pass);
    assert_eq!(d.action, DmarcAction::Pass);
    assert!(!d.temp_error);
}

#[test]
fn an_unaligned_message_reports_the_spf_result_first() {
    let d = decision_of("s.example".into(), DmarcResult::Fail, DmarcResult::TempError, DmarcPolicy::Quarantine);
    assert_eq!(d.result, DmarcResult::Fail);
    assert_eq!(d.action, DmarcAction::Quarantine);
    assert!(d.temp_error);
    let d = decision_of("s.example".into(), DmarcResult::Unknown, DmarcResult::PermError, DmarcPolicy::Reject);
    assert_eq!(d.result, DmarcResult::PermError);
    assert_eq!(d.action, DmarcAction::Reject);
}

#[test]
fn each_spf_result_maps_to_its_method_keyword() {
    assert_eq!(spf_method(SpfVerdict::Pass), MethodResult::Pass);
    assert_eq!(spf_method(SpfVerdict::SoftFail), MethodResult::SoftFail);
    assert_eq!(spf_method(SpfVerdict::PermError), MethodResult::PermError);
}

#[test]
fn each_dkim_verdict_maps_to_its_method_keyword() {
    assert_eq!(dkim_method(DkimVerdict::Pass), MethodResult::Pass);
    assert_eq!(dkim_method(DkimVerdict::TempError), MethodResult::TempError);
    assert_eq!(dkim_method(DkimVerdict::Unknown), MethodResult::Unknown);
    assert_eq!(dmarc_method(DmarcResult::Fail), MethodResult::Fail);
}

#[test]
fn weak_dkim_signatures_are_insecure() {
    assert!(is_insecure(SignatureAlgorithm::RsaSha1, 256));
    assert!(is_insecure(SignatureAlgorithm::RsaSha256, 127));
    assert!(!is_insecure(SignatureAlgorithm::RsaSha256, 128));
    assert!(!is_insecure(SignatureAlgorithm::Ed25519Sha256, 64));
}

#[test]
fn dkim_outputs_become_signature_verdicts() {
    let decision = DkimDecision::from_outputs(&[
        DkimOutput { domain: Some("a.example".into()), result: DkimVerdict::Fail },
        DkimOutput { domain: None, result: DkimVerdict::Pass },
    ]);
    assert_eq!(decision.signatures.len(), 2);
    assert_eq!(decision.signatures[0].domain, "a.example");
    assert_eq!(decision.signatures[1].domain, "");
    assert!(decision.pass());
}

#[test]
fn an_spf_decision_records_its_identity() {
    let d = SpfDecision::mail_from("s.example".into(), SpfVerdict::Pass);
    assert_eq!(d.stage, SpfStage::MailFrom);
    assert!(d.passed());
    assert_eq!(SpfDecision::ehlo("h.example".into(), SpfVerdict::Fail).stage, SpfStage::Ehlo);
}

#[test]
fn a_reply_code_is_its_first_three_bytes() {
    assert_eq!(reply_code(b"550 5.1.1 no\r\n"), "550");
    assert_eq!(reply_code(b"25"), "---");
    assert_eq!(reply_code(&[0xff, 0xfe, 0xfd, b' ']), "---");
}

#[test]
fn a_target_pairs_a_host_with_its_addresses() {
    let target = MxTarget { host: "mail.example.com".to_string(), ips: vec!["192.0.2.1".to_string()] };
    assert_eq!(target.host, "mail.example.com");
    assert_eq!(target.ips, vec!["192.0.2.1".to_string()]);
}

#[test]
fn a_reject_decision_is_not_permitted_and_is_a_permanent_refusal() {
    let decision = DnsblDecision::Reject {
        zone: DEFAULT_ZONE.to_string(),
        listing: DnsblListing { codes: vec![[127, 0, 0, 2]], reason: Some("listed".to_string()) },
        reply: LISTED.as_bytes(),
    };
    assert!(!decision.is_allowed());
    match decision {
        DnsblDecision::Reject { reply, .. } => assert!(reply.starts_with(b"554")),
        DnsblDecision::Allow => unreachable!(),
    }
}

#[test]
fn given_settings_fields_tune_the_connection() {
    let base = RateLimits { max_connections: 30, max_messages: 200, window: 60 };
    let zones = Some(Some(vec![Some("zen.example".to_string()), None, Some("bl.example".to_string())]));
    let tuning = tune_connection(zones, Some(Some(300)), Some(Some(5)), Some(None), base);
    assert_eq!(tuning.dnsbl_zones, Some(vec!["zen.example".to_string(), "bl.example".to_string()]));
    assert_eq!(tuning.greylist_window, Some(300));
    assert_eq!(tuning.limits, RateLimits { max_connections: 5, max_messages: 200, window: 60 });
    let untouched = tune_connection(Some(None), Some(None), None, None, base);
    assert_eq!(untouched.dnsbl_zones, None);
    assert_eq!(untouched.greylist_window, None);
    assert_eq!(untouched.limits, base);
}
