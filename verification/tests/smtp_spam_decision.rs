use irixmail::smtp::arc::ArcDecision;
use irixmail::smtp::dkim_verify::{DkimDecision, DkimSignatureResult, DkimVerdict};
use irixmail::smtp::dmarc::{DmarcAction, DmarcDecision, DmarcPolicy, DmarcResult};
use irixmail::smtp::dnsbl::{DnsblDecision, DnsblListing, DEFAULT_ZONE, LISTED};
use irixmail::smtp::spam_decision::{decide, AuthSummary, Disposition, ReputationSummary, SpamDecision};
use irixmail::smtp::spf::{SpfDecision, SpfStage, SpfVerdict};

fn spf(result: SpfVerdict) -> SpfDecision {
    SpfDecision { stage: SpfStage::MailFrom, domain: "sender.example".to_string(), result }
}

fn dkim(verdict: DkimVerdict) -> DkimDecision {
    DkimDecision { signatures: vec![DkimSignatureResult { domain: "sender.example".to_string(), result: verdict }] }
}

fn dmarc(action: DmarcAction, temp_error: bool) -> DmarcDecision {
    DmarcDecision {
        domain: "sender.example".to_string(),
        result: if action == DmarcAction::Pass { DmarcResult::Pass } else { DmarcResult::Fail },
        policy: match action {
            DmarcAction::Reject => DmarcPolicy::Reject,
            DmarcAction::Quarantine => DmarcPolicy::Quarantine,
            DmarcAction::Pass => DmarcPolicy::NoPolicy,
        },
        action,
        temp_error,
    }
}

fn arc(verdict: DkimVerdict, instances: usize) -> ArcDecision {
    ArcDecision { result: verdict, instances }
}

fn listed() -> DnsblDecision {
    DnsblDecision::Reject {
        zone: DEFAULT_ZONE.to_string(),
        listing: DnsblListing { codes: vec![[127, 0, 0, 2]], reason: Some("listed".to_string()) },
        reply: LISTED.as_bytes(),
    }
}

fn judge(
    authenticated: bool,
    spf_result: SpfVerdict,
    dkim_verdict: DkimVerdict,
    dmarc_action: DmarcAction,
    dmarc_temp: bool,
    dnsbl: &DnsblDecision,
) -> SpamDecision {
    let spf = spf(spf_result);
    let dkim = dkim(dkim_verdict);
    let dmarc = dmarc(dmarc_action, dmarc_temp);
    let arc = arc(DkimVerdict::Unknown, 0);
    let auth = AuthSummary { spf: &spf, dkim: &dkim, dmarc: &dmarc, arc: &arc };
    let reputation = ReputationSummary { dnsbl };
    decide(authenticated, &auth, &reputation)
}

#[test]
fn an_aligned_message_with_no_adverse_signal_is_delivered_to_the_inbox() {
    let decision = judge(false, SpfVerdict::Pass, DkimVerdict::Pass, DmarcAction::Pass, false, &DnsblDecision::Allow);
    assert_eq!(decision, SpamDecision::Accept(Disposition::Inbox));
    assert!(decision.is_accepted());
    assert_eq!(decision.disposition(), Some(Disposition::Inbox));
}

#[test]
fn an_authenticated_session_skips_the_gauntlet_and_reaches_the_inbox() {
    let decision = judge(true, SpfVerdict::Fail, DkimVerdict::Fail, DmarcAction::Reject, false, &listed());
    assert_eq!(decision, SpamDecision::Accept(Disposition::Inbox));
}

#[test]
fn a_blocklisted_source_is_refused_permanently() {
    let dnsbl = listed();
    let decision = judge(false, SpfVerdict::Pass, DkimVerdict::Pass, DmarcAction::Pass, false, &dnsbl);
    match decision {
        SpamDecision::Reject(reply) => assert!(reply.starts_with(b"554")),
        other => panic!("expected a permanent rejection, got {other:?}"),
    }
}

#[test]
fn a_listing_is_decided_before_the_senders_own_quarantine_wish() {
    let dnsbl = listed();
    let decision = judge(false, SpfVerdict::Fail, DkimVerdict::Fail, DmarcAction::Quarantine, false, &dnsbl);
    assert!(matches!(decision, SpamDecision::Reject(_)));
}

#[test]
fn an_unaligned_message_under_reject_is_refused() {
    let decision = judge(false, SpfVerdict::Fail, DkimVerdict::Fail, DmarcAction::Reject, false, &DnsblDecision::Allow);
    match decision {
        SpamDecision::Reject(reply) => assert!(reply.starts_with(b"550")),
        other => panic!("expected a permanent rejection, got {other:?}"),
    }
}

#[test]
fn a_reject_policy_resting_on_a_temporary_dns_failure_is_deferred() {
    let decision = judge(false, SpfVerdict::TempError, DkimVerdict::Unknown, DmarcAction::Reject, true, &DnsblDecision::Allow);
    match decision {
        SpamDecision::Defer(reply) => assert!(reply.starts_with(b"451")),
        other => panic!("expected a transient deferral, got {other:?}"),
    }
    assert!(!decision.is_accepted());
    assert_eq!(decision.disposition(), None);
}

#[test]
fn an_unaligned_message_under_quarantine_is_filed_in_the_spam_folder() {
    let decision = judge(false, SpfVerdict::Fail, DkimVerdict::Fail, DmarcAction::Quarantine, false, &DnsblDecision::Allow);
    assert_eq!(decision, SpamDecision::Accept(Disposition::Spam));
    assert_eq!(decision.disposition(), Some(Disposition::Spam));
}
