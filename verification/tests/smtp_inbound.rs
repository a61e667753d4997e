use irixmail::smtp::arc::ArcDecision;
use irixmail::smtp::dkim_verify::{DkimDecision, DkimSignatureResult, DkimVerdict};
use irixmail::smtp::dmarc::{DmarcAction, DmarcDecision, DmarcPolicy, DmarcResult};
use irixmail::smtp::dnsbl::DnsblDecision;
use irixmail::smtp::inbound::{alignment_domain, build_received, domain_of, gauntlet_verdict, prepend_header};
use irixmail::smtp::spam_decision::{AuthSummary, Disposition, ReputationSummary, SpamDecision};
use irixmail::smtp::spf::{SpfDecision, SpfStage, SpfVerdict};

#[test]
fn the_prepended_header_leads_the_message() {
    let raw = b"From: a@b.example\r\nSubject: hi\r\n\r\nbody\r\n";
    let out = prepend_header("Authentication-Results", "mx.irixmail.test; none", raw);
    let text = String::from_utf8(out).unwrap();
    assert!(text.starts_with("Authentication-Results: mx.irixmail.test; none\r\nFrom:"));
    assert!(text.ends_with("body\r\n"));
}

#[test]
fn a_domain_is_taken_from_the_last_at() {
    assert_eq!(domain_of("alice@sender.example").as_deref(), Some("sender.example"));
    assert_eq!(domain_of("postmaster"), None);
    assert_eq!(domain_of("trailing@"), None);
}

#[test]
fn a_received_header_records_the_hop_over_tls_as_esmtps() {
    let line = build_received("client.example", "198.51.100.7", "mx.irix.example", true, 0x2AB, 1_700_000_000);
    let text = String::from_utf8(line).unwrap();
    assert!(text.starts_with("Received: from client.example [198.51.100.7]\r\n\t"));
    assert!(text.contains("by mx.irix.example (IRIXMAIL) with ESMTPS id 2AB;"));
    assert!(text.ends_with("Tue, 14 Nov 2023 22:13:20 +0000\r\n"));
}

#[test]
fn a_plaintext_hop_is_recorded_as_esmtp() {
    let line = build_received("c", "192.0.2.1", "mx", false, 0, 0);
    assert_eq!(
        String::from_utf8(line).unwrap(),
        "Received: from c [192.0.2.1]\r\n\tby mx (IRIXMAIL) with ESMTP id 0;\r\n\tThu, 01 Jan 1970 00:00:00 +0000\r\n"
    );
}

#[test]
fn dmarc_aligns_with_the_sender_domain_or_the_greeting() {
    assert_eq!(alignment_domain("a@Sender.Example", "helo.example"), "Sender.Example");
    assert_eq!(alignment_domain("", "helo.example"), "helo.example");
}

fn decisions(action: DmarcAction) -> (SpfDecision, DkimDecision, DmarcDecision, ArcDecision) {
    (
        SpfDecision { stage: SpfStage::MailFrom, domain: "sender.example".to_string(), result: SpfVerdict::Pass },
        DkimDecision {
            signatures: vec![DkimSignatureResult { domain: "sender.example".to_string(), result: DkimVerdict::Pass }],
        },
        DmarcDecision {
            domain: "sender.example".to_string(),
            result: DmarcResult::Pass,
            policy: DmarcPolicy::NoPolicy,
            action,
            temp_error: false,
        },
        ArcDecision { result: DkimVerdict::Unknown, instances: 0 },
    )
}

#[test]
fn a_clean_message_goes_to_the_inbox_and_a_looping_one_is_deferred() {
    let (spf, dkim, dmarc, arc) = decisions(DmarcAction::Pass);
    let auth = AuthSummary { spf: &spf, dkim: &dkim, dmarc: &dmarc, arc: &arc };
    let dnsbl = DnsblDecision::Allow;
    let reputation = ReputationSummary { dnsbl: &dnsbl };
    let clean = b"Received: from a\r\nSubject: x\r\n\r\nbody\r\n";
    assert_eq!(gauntlet_verdict(clean, &auth, &reputation), SpamDecision::Accept(Disposition::Inbox));
    let mut looping = Vec::new();
    for _ in 0..51 {
        looping.extend_from_slice(b"Received: from relay\r\n");
    }
    looping.extend_from_slice(b"\r\nbody\r\n");
    match gauntlet_verdict(&looping, &auth, &reputation) {
        SpamDecision::Defer(reply) => assert!(reply.starts_with(b"450 4.4.6")),
        other => panic!("expected a deferral, got {other:?}"),
    }
}

#[test]
fn a_quarantine_policy_files_as_spam() {
    let (spf, dkim, dmarc, arc) = decisions(DmarcAction::Quarantine);
    let auth = AuthSummary { spf: &spf, dkim: &dkim, dmarc: &dmarc, arc: &arc };
    let dnsbl = DnsblDecision::Allow;
    let reputation = ReputationSummary { dnsbl: &dnsbl };
    assert_eq!(gauntlet_verdict(b"\r\nbody", &auth, &reputation), SpamDecision::Accept(Disposition::Spam));
}
