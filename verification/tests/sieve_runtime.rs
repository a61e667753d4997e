use irixmail::sieve::{execute, Compiler, Envelope, Limits, Outcome};

const MESSAGE: &[u8] = "From: Weekly News <newsletter@example.com>\r\nTo: me@example.org\r\nSubject: Weekly deals\r\n\r\nHello!\r\n"
.as_bytes();

fn run(source: &str) -> Outcome {
    let script = Compiler::new().compile(source).unwrap();
    execute(
        &script,
        MESSAGE,
        Envelope {
            from: "newsletter@example.com",
            to: "me@example.org",
        },
        &Limits::default(),
    )
}

#[test]
fn an_empty_script_keeps_the_message() {
    let outcome = run("");
    assert!(outcome.keep);
    assert!(!outcome.discarded);
    assert!(outcome.file_into.is_empty());
    assert!(outcome.redirects.is_empty());
    assert!(outcome.flags.is_empty());
}

#[test]
fn a_matching_fileinto_cancels_the_implicit_keep() {
    let outcome = run("require \"fileinto\";\nif header :contains \"From\" \"newsletter\" { fileinto \"Newsletters\"; }");
    assert!(!outcome.keep);
    assert_eq!(outcome.file_into, vec!["Newsletters"]);
}

#[test]
fn a_non_matching_test_leaves_the_implicit_keep() {
    let outcome = run("require \"fileinto\";\nif header :contains \"From\" \"nobody\" { fileinto \"Newsletters\"; }");
    assert!(outcome.keep);
    assert!(outcome.file_into.is_empty());
}

#[test]
fn discard_drops_the_message() {
    let outcome = run("discard;");
    assert!(!outcome.keep);
    assert!(outcome.discarded);
}

#[test]
fn an_explicit_keep_after_discard_still_delivers() {
    let outcome = run("discard;\nkeep;");
    assert!(outcome.keep);
    assert!(!outcome.discarded);
}

#[test]
fn redirect_does_not_cancel_the_implicit_keep() {
    let outcome = run("redirect \"elsewhere@example.net\";");
    assert!(outcome.keep);
    assert!(!outcome.discarded);
    assert_eq!(outcome.redirects, vec!["elsewhere@example.net"]);
}

#[test]
fn discard_still_collects_redirects() {
    let outcome = run("redirect \"elsewhere@example.net\";\ndiscard;");
    assert!(outcome.discarded);
    assert_eq!(outcome.redirects, vec!["elsewhere@example.net"]);
}

#[test]
fn the_implicit_keep_carries_accumulated_flags() {
    let outcome = run("require \"imap4flags\";\naddflag \"\\\\Flagged\";");
    assert!(outcome.keep);
    assert_eq!(outcome.flags, vec!["\\Flagged"]);
}

#[test]
fn flags_travel_with_a_fileinto() {
    let outcome = run("require [\"fileinto\", \"imap4flags\"];\naddflag \"Important\";\nfileinto \"Priority\";");
    assert_eq!(outcome.file_into, vec!["Priority"]);
    assert_eq!(outcome.flags, vec!["Important"]);
}

#[test]
fn setflag_replaces_and_removeflag_deletes_case_insensitively() {
    let outcome = run("require \"imap4flags\";\naddflag \"one two\";\nsetflag \"Three Four\";\nremoveflag \"THREE\";");
    assert_eq!(outcome.flags, vec!["Four"]);
}

#[test]
fn duplicate_flags_and_targets_are_collapsed() {
    let outcome = run("require [\"fileinto\", \"imap4flags\"];\naddflag \"A\";\naddflag \"a\";\nfileinto \"X\";\nfileinto \"X\";\nredirect \"a@b.example\";\nredirect \"A@B.EXAMPLE\";");
    assert_eq!(outcome.flags, vec!["A"]);
    assert_eq!(outcome.file_into, vec!["X"]);
    assert_eq!(outcome.redirects, vec!["a@b.example"]);
}

#[test]
fn stop_halts_before_later_commands() {
    let outcome = run("require \"fileinto\";\nfileinto \"First\";\nstop;\nfileinto \"Second\";");
    assert_eq!(outcome.file_into, vec!["First"]);
}

#[test]
fn elsif_and_else_branches_run_exclusively() {
    let outcome = run("require \"fileinto\";\nif header :is \"subject\" \"nope\" { fileinto \"A\"; }\nelsif header :contains \"subject\" \"deals\" { fileinto \"B\"; }\nelse { fileinto \"C\"; }");
    assert_eq!(outcome.file_into, vec!["B"]);
}

#[test]
fn envelope_tests_match_the_sanitized_envelope() {
    let outcome = run("require [\"envelope\", \"fileinto\"];\nif envelope :domain :is \"from\" \"example.com\" { fileinto \"FromExample\"; }");
    assert_eq!(outcome.file_into, vec!["FromExample"]);
}

#[test]
fn a_junk_envelope_value_never_matches() {
    let script = Compiler::new()
        .compile("require \"envelope\";\nif envelope :is \"from\" [\"\", \"*\"] { discard; }")
        .unwrap();
    let outcome = execute(
        &script,
        MESSAGE,
        Envelope {
            from: "not an address",
            to: "me@example.org",
        },
        &Limits::default(),
    );
    assert!(outcome.keep);
    assert!(!outcome.discarded);
}

#[test]
fn a_null_envelope_sender_matches_the_empty_string() {
    let script = Compiler::new()
        .compile("require \"envelope\";\nif envelope :is \"from\" \"\" { discard; }")
        .unwrap();
    let outcome = execute(
        &script,
        MESSAGE,
        Envelope {
            from: "<>",
            to: "me@example.org",
        },
        &Limits::default(),
    );
    assert!(outcome.discarded);
}

#[test]
fn size_tests_compare_the_raw_message_length() {
    let over = run(&format!(
        "if size :over {} {{ discard; }}",
        MESSAGE.len() - 1
    ));
    assert!(over.discarded);
    let under = run(&format!(
        "if size :under {} {{ discard; }}",
        MESSAGE.len() + 1
    ));
    assert!(under.discarded);
    let not_over = run(&format!("if size :over {} {{ discard; }}", MESSAGE.len()));
    assert!(not_over.keep);
}

#[test]
fn exists_requires_every_listed_header() {
    assert!(run("if exists [\"from\", \"subject\"] { discard; }").discarded);
    assert!(run("if exists [\"from\", \"x-nope\"] { discard; }").keep);
    assert!(run("if not exists \"x-nope\" { discard; }").discarded);
}

#[test]
fn matches_globs_against_header_values() {
    assert!(run("if header :matches \"subject\" \"*deals*\" { discard; }").discarded);
    assert!(run("if header :matches \"subject\" \"deals\" { discard; }").keep);
}

#[test]
fn redirects_beyond_the_limit_are_ignored() {
    let source = (0..6)
        .map(|i| format!("redirect \"r{i}@example.net\";"))
        .collect::<Vec<_>>()
        .join("\n");
    let outcome = run(&source);
    assert_eq!(outcome.redirects.len(), Limits::default().max_redirects);
}

#[test]
fn the_cpu_limit_stops_execution_but_keeps_the_message() {
    let source = "keep;\n".repeat(100);
    let script = Compiler::new().compile(&source).unwrap();
    let outcome = execute(
        &script,
        MESSAGE,
        Envelope {
            from: "a@b.example",
            to: "me@example.org",
        },
        &Limits {
            cpu: 10,
            max_redirects: 4,
        },
    );
    assert!(outcome.keep);
    assert!(!outcome.discarded);
}

#[test]
fn an_unparseable_message_still_follows_the_script() {
    let script = Compiler::new()
        .compile("if exists \"from\" { discard; }")
        .unwrap();
    let outcome = execute(
        &script,
        b"",
        Envelope {
            from: "a@b.example",
            to: "me@example.org",
        },
        &Limits::default(),
    );
    assert!(outcome.keep);
}

#[test]
fn a_discard_after_a_fileinto_does_not_count_as_discarded() {
    let outcome = run("require \"fileinto\";\nfileinto \"Kept\";\ndiscard;");
    assert!(!outcome.keep);
    assert!(!outcome.discarded);
    assert_eq!(outcome.file_into, vec!["Kept"]);
}

#[test]
fn a_zero_cpu_budget_runs_nothing() {
    let script = Compiler::new().compile("discard;").unwrap();
    let outcome = execute(
        &script,
        MESSAGE,
        Envelope {
            from: "a@b.example",
            to: "me@example.org",
        },
        &Limits {
            cpu: 0,
            max_redirects: 4,
        },
    );
    assert!(outcome.keep);
    assert!(!outcome.discarded);
}

fn subject(text: &str) -> irixmail::sieve::message::RawHeader {
    irixmail::sieve::message::RawHeader {
        name: "Subject".to_string(),
        content: irixmail::sieve::message::HeaderContent::Text(text.to_string()),
        start: 0,
        end: 0,
    }
}

fn run_with_fields(source: &str, fields: Vec<irixmail::sieve::message::RawHeader>) -> Outcome {
    let script = Compiler::new().compile(source).unwrap();
    irixmail::sieve::execute_with_fields(
        &script,
        MESSAGE,
        fields,
        Envelope { from: "newsletter@example.com", to: "me@example.org" },
        &Limits::default(),
    )
}

#[test]
fn given_header_fields_decide_the_tests() {
    let script = "if header :contains \"subject\" \"deals\" { discard; }";
    let outcome = run_with_fields(script, vec![subject("Weekly deals")]);
    assert!(outcome.discarded);
    assert!(!outcome.keep);
    let outcome = run_with_fields(script, vec![subject("Monthly digest")]);
    assert!(outcome.keep);
    let outcome = run_with_fields(script, Vec::new());
    assert!(outcome.keep);
}

#[test]
fn a_view_over_given_fields_sees_exactly_those_fields() {
    let view = irixmail::sieve::message::MessageView::from_fields(MESSAGE, vec![subject("Weekly deals")]);
    assert!(view.header_exists("subject"));
    assert!(!view.header_exists("From"));
    assert_eq!(view.header_values("Subject"), vec!["Weekly deals".to_string()]);
}

#[test]
fn a_message_not_kept_is_filed_or_discarded() {
    let discarded = run("discard;");
    assert!(!discarded.keep);
    assert!(discarded.discarded);
    let filed = run("require \"fileinto\";\nfileinto \"Archive\";");
    assert!(!filed.keep);
    assert!(!filed.discarded);
    assert_eq!(filed.file_into, vec!["Archive"]);
    let both = run("require \"fileinto\";\nfileinto \"Archive\";\ndiscard;");
    assert!(!both.keep);
    assert!(!both.discarded);
}

#[test]
fn a_step_budget_keeps_the_first_steps_of_the_run() {
    let script = Compiler::new().compile("require \"fileinto\";\nfileinto \"A\";\nfileinto \"B\";").unwrap();
    let envelope = Envelope { from: "newsletter@example.com", to: "me@example.org" };
    let cut = execute(&script, MESSAGE, envelope, &Limits { cpu: 1, max_redirects: 4 });
    assert_eq!(cut.file_into, vec!["A"]);
    assert!(!cut.keep);
    let whole = execute(&script, MESSAGE, envelope, &Limits::default());
    assert_eq!(whole.file_into, vec!["A", "B"]);
}
