use irixmail::smtp::session::stamp_inbound;
use irixmail::smtp::session::{delivery_refusal, refused_everywhere};
use irixmail::smtp::session::{answers_vacations, target_override, verdict_disposition, FolderRole};
use irixmail::smtp::spam_decision::{Disposition, SpamDecision};
use irixmail::smtp::cmd_rcpt::Recipient;
use irixmail::smtp::cmd_auth::SaslStart;
use irixmail::smtp::session::{
    auth_response, domain_of, ChunkResult, DataProgress, DataReader, Flow, LoginVerdict, SessionState, SmtpMode,
    Stage, Step, Verb, MAX_MESSAGE_SIZE,
};

struct Outcome {
    flow: Flow,
    out: Vec<u8>,
    state: SessionState,
    accepted: Option<(Option<String>, Vec<String>, Vec<u8>)>,
}

fn read_line(input: &[u8], pos: &mut usize) -> Option<Vec<u8>> {
    if *pos >= input.len() {
        return None;
    }
    let mut line = Vec::new();
    while *pos < input.len() {
        let b = input[*pos];
        *pos += 1;
        if b == b'\n' {
            return Some(line);
        }
        line.push(b);
    }
    Some(line)
}

fn drive_state(mut state: SessionState, input: &[u8]) -> Outcome {
    let mut out = Vec::new();
    let mut pos = 0usize;
    let mut accepted = None;
    loop {
        let Some(line) = read_line(input, &mut pos) else {
            return Outcome { flow: Flow::Close, out, state, accepted };
        };
        let mut step = state.command(&line);
        loop {
            match step {
                Step::Reply(r) => {
                    out.extend_from_slice(&r);
                    break;
                }
                Step::Close(r) => {
                    out.extend_from_slice(&r);
                    return Outcome { flow: Flow::Close, out, state, accepted };
                }
                Step::Upgrade(r) => {
                    out.extend_from_slice(&r);
                    return Outcome { flow: Flow::Upgrade, out, state, accepted };
                }
                Step::CheckSender(params) => {
                    let r = state.accept_sender(params, None);
                    out.extend_from_slice(&r);
                    break;
                }
                Step::ClassifyRecipient(params) => {
                    step = state.recipient_classified(params, Recipient::Local);
                }
                Step::CheckGreylist(address) => {
                    let r = state.admit_recipient(address, None);
                    out.extend_from_slice(&r);
                    break;
                }
                Step::ReadBody(prompt) => {
                    out.extend_from_slice(&prompt);
                    let mut reader = DataReader::new();
                    loop {
                        let line = read_line(input, &mut pos).expect("body");
                        match reader.push(&line) {
                            DataProgress::More => {}
                            DataProgress::Done(Some(body)) => {
                                let (from, rcpts) = state.take_transaction();
                                accepted = Some((from, rcpts, body));
                                out.extend_from_slice(b"250 2.0.0 Message accepted\r\n");
                                break;
                            }
                            DataProgress::Done(None) => {
                                let r = state.abandon_transaction();
                                out.extend_from_slice(&r);
                                break;
                            }
                        }
                    }
                    break;
                }
                Step::DrainChunk(n, r) => {
                    pos = (pos + n).min(input.len());
                    out.extend_from_slice(&r);
                    break;
                }
                Step::ReadChunk(n, last) => {
                    let end = (pos + n).min(input.len());
                    let chunk = input[pos..end].to_vec();
                    pos = end;
                    match state.chunk_received(&chunk, last) {
                        ChunkResult::Reply(r) => out.extend_from_slice(&r),
                        ChunkResult::Complete { body, mail_from, rcpt_to } => {
                            accepted = Some((mail_from, rcpt_to, body));
                            out.extend_from_slice(b"250 2.0.0 Message accepted\r\n");
                        }
                    }
                    break;
                }
                Step::Authenticate(start) => {
                    match start {
                        SaslStart::Reply { bytes, .. } => out.extend_from_slice(bytes),
                        SaslStart::Continue { .. } => {}
                    }
                    break;
                }
            }
        }
    }
}

fn hosting(domain: &str) -> Vec<String> {
    vec![domain.to_string()]
}

fn drive(script: &[u8]) -> Outcome {
    drive_state(SessionState::new(SmtpMode::Inbound, hosting("d.example"), false), script)
}

fn text(o: &Outcome) -> String {
    String::from_utf8(o.out.clone()).unwrap()
}

#[test]
fn verbs_are_parsed_case_insensitively() {
    assert_eq!(Verb::from_line(b"ehlo host\r\n"), Verb::Ehlo);
    assert_eq!(Verb::from_line(b"MAIL FROM:<a@b>\r\n"), Verb::Mail);
    assert_eq!(Verb::from_line(b"QuIt\r\n"), Verb::Quit);
    assert_eq!(Verb::from_line(b"WHAT\r\n"), Verb::Unknown);
    assert_eq!(Verb::from_line(b"\r\n"), Verb::Unknown);
}

#[test]
fn a_full_transaction_advances_the_state_machine() {
    let o = drive(b"EHLO client\r\nMAIL FROM:<a@b.example>\r\nRCPT TO:<c@d.example>\r\nDATA\r\nhello\r\n.\r\nQUIT\r\n");
    assert_eq!(o.flow, Flow::Close);
    assert_eq!(o.state.stage, Stage::Greeted);
    let t = text(&o);
    assert!(t.contains("354 "));
    assert!(t.contains("221 2.0.0 Bye"));
}

#[test]
fn an_unknown_verb_gets_a_five_hundred() {
    let o = drive(b"FROBNICATE\r\nQUIT\r\n");
    assert!(text(&o).contains("500 5.5.2 Command unrecognized"));
}

#[test]
fn mail_before_greeting_is_rejected() {
    let o = drive(b"MAIL FROM:<a@b.example>\r\nQUIT\r\n");
    assert!(text(&o).contains("503 5.5.1 Send EHLO/HELO first"));
}

#[test]
fn rcpt_without_mail_is_rejected() {
    let o = drive(b"EHLO client\r\nRCPT TO:<c@d.example>\r\nQUIT\r\n");
    assert!(text(&o).contains("503 5.5.1 Send MAIL before RCPT"));
}

#[test]
fn a_local_recipient_is_accepted_and_recorded() {
    let o = drive(b"EHLO c\r\nMAIL FROM:<a@b.example>\r\nRCPT TO:<c@d.example>\r\nQUIT\r\n");
    assert_eq!(o.state.stage, Stage::Rcpt);
    assert_eq!(o.state.data.rcpt_to, vec!["c@d.example".to_string()]);
    assert!(text(&o).contains("250 2.1.5 Recipient OK"));
}

#[test]
fn session_an_unauthenticated_remote_recipient_is_refused_as_relaying() {
    let o = drive(b"EHLO c\r\nMAIL FROM:<a@b.example>\r\nRCPT TO:<user@remote.example>\r\nQUIT\r\n");
    assert!(text(&o).contains("550 5.7.1 Relaying not allowed"));
}

#[test]
fn data_before_rcpt_is_rejected() {
    let o = drive(b"EHLO client\r\nMAIL FROM:<a@b.example>\r\nDATA\r\nQUIT\r\n");
    assert!(text(&o).contains("503 5.5.1 Need RCPT before DATA"));
}

#[test]
fn starttls_requests_an_upgrade() {
    let o = drive(b"EHLO client\r\nSTARTTLS\r\n");
    assert_eq!(o.flow, Flow::Upgrade);
    assert!(text(&o).contains("220 2.0.0 Ready to start TLS"));
}

#[test]
fn data_body_is_collected_and_dot_unstuffed() {
    let o = drive(b"EHLO c\r\nMAIL FROM:<a@b.example>\r\nRCPT TO:<c@d.example>\r\nDATA\r\n..dotted\r\nbody\r\n.\r\nQUIT\r\n");
    let (from, rcpts, body) = o.accepted.unwrap();
    assert_eq!(body, b".dotted\r\nbody\r\n");
    assert_eq!(from.as_deref(), Some("a@b.example"));
    assert_eq!(rcpts, vec!["c@d.example".to_string()]);
}

#[test]
fn a_long_physical_data_line_is_accepted_not_dropped() {
    let long_line = "x".repeat(2000);
    let script = format!(
        "EHLO c\r\nMAIL FROM:<a@b.example>\r\nRCPT TO:<c@d.example>\r\nDATA\r\nSubject: hi\r\n\r\n{long_line}\r\n.\r\nQUIT\r\n"
    );
    let o = drive(script.as_bytes());
    let t = text(&o);
    let (_, _, body) = o.accepted.unwrap();
    assert!(body.windows(long_line.len()).any(|w| w == long_line.as_bytes()));
    assert!(t.contains("250 2.0.0 Message accepted"));
    assert!(t.contains("221 2.0.0 Bye"));
}

#[test]
fn a_single_bdat_last_chunk_is_accepted_verbatim() {
    let o = drive(b"EHLO c\r\nMAIL FROM:<a@b.example>\r\nRCPT TO:<c@d.example>\r\nBDAT 11 LAST\r\nhello world\r\nQUIT\r\n");
    let (from, rcpts, body) = o.accepted.unwrap();
    assert_eq!(body, b"hello world");
    assert_eq!(from.as_deref(), Some("a@b.example"));
    assert_eq!(rcpts, vec!["c@d.example".to_string()]);
    assert_eq!(o.state.stage, Stage::Greeted);
}

#[test]
fn multiple_bdat_chunks_are_concatenated() {
    let o = drive(b"EHLO c\r\nMAIL FROM:<a@b.example>\r\nRCPT TO:<c@d.example>\r\nBDAT 5\r\nhelloBDAT 5 LAST\r\nworldQUIT\r\n");
    let t = text(&o);
    let (_, _, body) = o.accepted.unwrap();
    assert_eq!(body, b"helloworld");
    assert!(t.contains("250 2.6.0 Chunk accepted"));
    assert!(t.contains("250 2.0.0 Message accepted"));
}

#[test]
fn bdat_before_rcpt_is_rejected() {
    let o = drive(b"EHLO c\r\nMAIL FROM:<a@b.example>\r\nBDAT 4 LAST\r\nbodyQUIT\r\n");
    assert!(o.accepted.is_none());
    assert!(text(&o).contains("503 5.5.1 Need RCPT before BDAT"));
}

#[test]
fn a_rejected_bdat_chunk_is_drained_not_parsed_as_commands() {
    let o = drive(b"EHLO c\r\nBDAT 7 LAST\r\nXFROG\r\nNOOP\r\nQUIT\r\n");
    let t = text(&o);
    assert!(t.contains("503 5.5.1 Need RCPT before BDAT"));
    assert!(!t.contains("500 "));
    assert!(t.contains("221 "));
}

#[test]
fn an_oversized_bdat_declaration_replies_552_and_closes_the_connection() {
    let o = drive(b"EHLO c\r\nMAIL FROM:<a@b.example>\r\nRCPT TO:<c@d.example>\r\nBDAT 30000000 LAST\r\nXFROG\r\nQUIT\r\n");
    let t = text(&o);
    assert!(t.contains("552 5.3.4 "));
    assert_eq!(o.flow, Flow::Close);
    assert!(!t.contains("500 ") && !t.contains("221 "));
}

#[test]
fn ehlo_advertises_capabilities_and_records_the_domain() {
    let o = drive(b"EHLO client.example\r\nQUIT\r\n");
    assert_eq!(o.state.data.helo_domain, "client.example");
    let t = text(&o);
    assert!(t.contains("250-irixmail"));
    assert!(t.contains("STARTTLS\r\n"));
    assert!(t.contains("SIZE "));
    assert!(t.contains("PIPELINING\r\n"));
}

#[test]
fn helo_returns_a_single_greeting_line() {
    let o = drive(b"HELO client.example\r\nQUIT\r\n");
    assert_eq!(o.state.data.helo_domain, "client.example");
    let t = text(&o);
    assert!(!t.contains("250-"));
    assert!(t.contains("250 irixmail at your service\r\n"));
}

#[test]
fn rset_clears_an_in_progress_transaction() {
    let o = drive(b"EHLO c\r\nMAIL FROM:<a@b.example>\r\nRSET\r\nQUIT\r\n");
    assert_eq!(o.state.stage, Stage::Greeted);
    assert!(o.state.data.mail_from.is_none());
    assert!(o.state.data.rcpt_to.is_empty());
}

#[test]
fn an_oversized_mail_is_refused() {
    let script = format!("EHLO c\r\nMAIL FROM:<a@b.example> SIZE={}\r\nQUIT\r\n", MAX_MESSAGE_SIZE + 1);
    let o = drive(script.as_bytes());
    assert!(text(&o).contains("552 5.3.4 "));
    assert_eq!(o.state.stage, Stage::Greeted);
}

#[test]
fn smtputf8_is_recorded_on_the_session() {
    let o = drive(b"EHLO c\r\nMAIL FROM:<a@b.example> SMTPUTF8\r\nQUIT\r\n");
    assert_eq!(o.state.data.mail_from.as_deref(), Some("a@b.example"));
    assert!(o.state.data.smtputf8);
}

#[test]
fn a_submission_mode_session_still_drives_the_state_machine() {
    let o = drive_state(SessionState::new(SmtpMode::Submission, Vec::new(), false), b"EHLO c\r\nQUIT\r\n");
    assert_eq!(o.flow, Flow::Close);
    assert_eq!(o.state.mode, SmtpMode::Submission);
}

#[test]
fn submission_refuses_mail_until_the_session_is_authenticated() {
    let o = drive_state(
        SessionState::new(SmtpMode::Submission, Vec::new(), true),
        b"EHLO c\r\nMAIL FROM:<a@b.example>\r\nQUIT\r\n",
    );
    assert!(text(&o).contains("530 5.7.0 Authentication required"));
    assert!(o.state.data.mail_from.is_none());
}

#[test]
fn auth_on_a_plaintext_channel_is_refused() {
    let o = drive(b"EHLO c\r\nAUTH PLAIN\r\nQUIT\r\n");
    assert!(text(&o).contains("530 5.7.0 Must issue a STARTTLS command first"));
}

#[test]
fn a_bare_postmaster_recipient_is_hosted() {
    let state = SessionState::new(SmtpMode::Inbound, hosting("d.example"), false);
    assert!(state.is_hosted("postmaster"));
    assert!(state.is_hosted(" PostMaster "));
    assert!(state.is_hosted("c@D.Example"));
    assert!(!state.is_hosted("c@remote.example"));
    assert!(!state.is_hosted("nobody"));
}

#[test]
fn an_authenticated_submission_relays_to_a_remote_recipient() {
    let mut state = SessionState::new(SmtpMode::Submission, Vec::new(), true);
    let r = state.login_verdict(LoginVerdict::Granted);
    assert_eq!(r, b"235 2.7.0 Authentication successful\r\n");
    let o = drive_state(state, b"EHLO c\r\nMAIL FROM:<a@b.example>\r\nRCPT TO:<x@remote.example>\r\nQUIT\r\n");
    assert!(text(&o).contains("250 2.1.5 Recipient OK"));
    assert_eq!(o.state.data.rcpt_to, vec!["x@remote.example".to_string()]);
}

#[test]
fn a_denied_login_leaves_the_session_unauthenticated() {
    let mut state = SessionState::new(SmtpMode::Submission, Vec::new(), true);
    assert_eq!(state.login_verdict(LoginVerdict::Denied), b"535 5.7.8 Authentication credentials invalid\r\n");
    assert_eq!(state.login_verdict(LoginVerdict::Throttled), b"454 4.7.0 Too many failed authentication attempts\r\n");
    assert!(!state.data.authenticated);
}

#[test]
fn an_oversized_data_body_is_read_to_its_end_and_refused() {
    let mut reader = DataReader::new();
    let big = vec![b'x'; MAX_MESSAGE_SIZE];
    assert!(matches!(reader.push(&big), DataProgress::More));
    assert!(matches!(reader.push(b"more\r"), DataProgress::More));
    assert!(matches!(reader.push(b".\r"), DataProgress::Done(None)));
}

#[test]
fn an_auth_response_is_trimmed_and_a_star_cancels() {
    assert_eq!(auth_response(b"  dXNlcg==  \r").as_deref(), Some("dXNlcg=="));
    assert_eq!(auth_response(b"*\r"), None);
    assert_eq!(auth_response(b" * "), None);
}

#[test]
fn the_session_domain_is_lower_cased_after_the_last_at() {
    assert_eq!(domain_of("a@b@Sender.Example").as_deref(), Some("sender.example"));
    assert_eq!(domain_of("postmaster"), None);
    assert_eq!(domain_of("trailing@"), None);
}

#[test]
fn rset_before_a_greeting_stays_unconnected() {
    let o = drive(b"RSET\r\nQUIT\r\n");
    assert_eq!(o.state.stage, Stage::Connected);
    assert!(text(&o).contains("250 2.0.0 Reset OK"));
}

#[test]
fn an_inbound_message_is_stamped_with_a_received_header_above_authentication_results() {
    let out = stamp_inbound("client.example", "198.51.100.7", "mx.example", false, 0, "mx.example; none", b"Subject: x\r\n\r\nbody\r\n");
    let text = String::from_utf8(out).unwrap();
    assert!(text.starts_with("Received: from client.example [198.51.100.7]\r\n"));
    let received_end = text.find("Authentication-Results: mx.example; none\r\n").unwrap();
    assert!(received_end > 0);
    assert!(text.ends_with("Subject: x\r\n\r\nbody\r\n"));
}

#[test]
fn an_undeliverable_inbound_message_is_refused() {
    assert_eq!(delivery_refusal(0, 0, false), Some(b"550 5.1.1 Mailbox unavailable\r\n".to_vec()));
    assert_eq!(delivery_refusal(0, 1, false), None);
    assert_eq!(delivery_refusal(2, 0, true), Some(b"452 4.2.2 Mailbox full, try again later\r\n".to_vec()));
    assert_eq!(delivery_refusal(2, 1, true), None);
    assert_eq!(delivery_refusal(2, 0, false), None);
    assert!(refused_everywhere(&[true, true], &[false, false]));
    assert!(!refused_everywhere(&[true, false], &[false, false]));
    assert!(!refused_everywhere(&[true], &[true]));
}

#[test]
fn a_spam_verdict_files_or_turns_the_message_away() {
    assert_eq!(verdict_disposition(SpamDecision::Accept(Disposition::Spam)), Ok(Disposition::Spam));
    assert_eq!(verdict_disposition(SpamDecision::Reject(b"550 no\r\n")), Err(b"550 no\r\n".to_vec()));
}

#[test]
fn a_bare_postmaster_recipient_is_accepted() {
    let script = b"EHLO client\r\nMAIL FROM:<a@b.example>\r\nRCPT TO:<postmaster>\r\nQUIT\r\n";
    let o = drive(script);
    let text = text(&o);
    assert!(text.contains("250 2.1.5 Recipient OK"), "got: {text}");
}

#[test]
fn a_spam_disposition_files_into_junk_and_sends_no_vacation_reply() {
    assert_eq!(target_override(Disposition::Spam), Some(FolderRole::Junk));
    assert_eq!(target_override(Disposition::Inbox), None);
    assert!(!answers_vacations(Disposition::Spam));
    assert!(answers_vacations(Disposition::Inbox));
}
