use irixmail::sieve::grammar::{compile, Program};
use irixmail::sieve::instruction::{AddressPart, Comparator, EnvelopePart, Instruction, MatchType, Test};
use irixmail::sieve::lexer::tokenize;
use irixmail::sieve::{CompileError, CompilerLimits};

fn parse(source: &str) -> Result<Program, CompileError> {
    let limits = CompilerLimits::default();
    compile(tokenize(source, &limits)?, &limits)
}

fn instructions(source: &str) -> Vec<Instruction> {
    parse(source).unwrap().instructions
}

fn error(source: &str) -> CompileError {
    parse(source).unwrap_err()
}

#[test]
fn an_empty_script_compiles_to_no_instructions() {
    assert!(instructions("").is_empty());
    assert!(instructions("# only a comment\n").is_empty());
}

#[test]
fn an_if_test_compiles_to_a_forward_jz_over_its_block() {
    assert_eq!(
        instructions("if true { discard; }"),
        vec![
            Instruction::Test(Test::Bool(true)),
            Instruction::Jz(3),
            Instruction::Discard,
        ]
    );
}

#[test]
fn an_elsif_else_chain_jumps_over_the_remaining_branches() {
    assert_eq!(
        instructions("if true { keep; } elsif false { discard; } else { stop; }"),
        vec![
            Instruction::Test(Test::Bool(true)),
            Instruction::Jz(4),
            Instruction::Keep,
            Instruction::Jmp(9),
            Instruction::Test(Test::Bool(false)),
            Instruction::Jz(8),
            Instruction::Discard,
            Instruction::Jmp(9),
            Instruction::Stop,
        ]
    );
}

#[test]
fn allof_short_circuits_with_jz_between_tests() {
    assert_eq!(
        instructions("if allof (true, false) { keep; }"),
        vec![
            Instruction::Test(Test::Bool(true)),
            Instruction::Jz(3),
            Instruction::Test(Test::Bool(false)),
            Instruction::Jz(5),
            Instruction::Keep,
        ]
    );
}

#[test]
fn anyof_short_circuits_with_jnz_between_tests() {
    assert_eq!(
        instructions("if anyof (true, false) { keep; }"),
        vec![
            Instruction::Test(Test::Bool(true)),
            Instruction::Jnz(3),
            Instruction::Test(Test::Bool(false)),
            Instruction::Jz(5),
            Instruction::Keep,
        ]
    );
}

#[test]
fn not_is_folded_into_leaf_tests_by_de_morgan() {
    assert_eq!(
        instructions("if not allof (exists \"a\", not exists \"b\") { keep; }"),
        vec![
            Instruction::Test(Test::Exists {
                headers: vec!["a".into()],
                is_not: true,
            }),
            Instruction::Jnz(3),
            Instruction::Test(Test::Exists {
                headers: vec!["b".into()],
                is_not: false,
            }),
            Instruction::Jz(5),
            Instruction::Keep,
        ]
    );
}

#[test]
fn not_true_folds_to_a_false_literal() {
    assert_eq!(
        instructions("if not true { keep; }"),
        vec![
            Instruction::Test(Test::Bool(false)),
            Instruction::Jz(3),
            Instruction::Keep,
        ]
    );
}

#[test]
fn header_tests_default_to_is_with_the_casemap_comparator() {
    assert_eq!(
        instructions("if header \"subject\" \"hi\" { keep; }")[0],
        Instruction::Test(Test::Header {
            headers: vec!["subject".into()],
            keys: vec!["hi".into()],
            match_type: MatchType::Is,
            comparator: Comparator::AsciiCaseMap,
            is_not: false,
        })
    );
}

#[test]
fn address_tests_accept_an_address_part_tag() {
    assert_eq!(
        instructions("if address :domain :is \"from\" \"example.com\" { keep; }")[0],
        Instruction::Test(Test::Address {
            headers: vec!["from".into()],
            keys: vec!["example.com".into()],
            part: AddressPart::Domain,
            match_type: MatchType::Is,
            comparator: Comparator::AsciiCaseMap,
            is_not: false,
        })
    );
}

#[test]
fn envelope_tests_need_the_envelope_capability() {
    assert_eq!(
        error("if envelope \"from\" \"a@b.example\" { keep; }").message,
        "\"envelope\" must be required first"
    );
    assert_eq!(
        instructions("require \"envelope\";\nif envelope :localpart \"FROM\" \"a\" { keep; }")
            [0],
        Instruction::Test(Test::Envelope {
            parts: vec![EnvelopePart::From],
            keys: vec!["a".into()],
            part: AddressPart::Localpart,
            match_type: MatchType::Is,
            comparator: Comparator::AsciiCaseMap,
            is_not: false,
        })
    );
}

#[test]
fn an_unsupported_envelope_part_is_rejected() {
    assert_eq!(
        error("require \"envelope\";\nif envelope \"auth\" \"x\" { keep; }").message,
        "unsupported envelope part \"auth\""
    );
}

#[test]
fn size_requires_exactly_one_direction_tag() {
    assert_eq!(
        instructions("if size :over 100K { discard; }")[0],
        Instruction::Test(Test::Size {
            over: true,
            limit: 100 << 10,
            is_not: false,
        })
    );
    assert_eq!(
        error("if size 100 { keep; }").message,
        "size requires :over or :under"
    );
    assert_eq!(
        error("if size :over :under 1 { keep; }").message,
        "duplicate size tag"
    );
}

#[test]
fn fileinto_and_flag_actions_need_their_capabilities() {
    assert_eq!(
        error("fileinto \"Spam\";").message,
        "\"fileinto\" must be required first"
    );
    assert_eq!(
        error("addflag \"\\\\Seen\";").message,
        "\"imap4flags\" must be required first"
    );
}

#[test]
fn flag_arguments_split_on_whitespace() {
    assert_eq!(
        instructions("require \"imap4flags\";\nsetflag \"\\\\Seen \\\\Flagged\";").pop(),
        Some(Instruction::SetFlag(vec![
            "\\Seen".into(),
            "\\Flagged".into()
        ]))
    );
}

#[test]
fn require_after_a_command_is_rejected() {
    assert_eq!(
        error("keep;\nrequire \"fileinto\";").message,
        "require must precede all other commands"
    );
}

#[test]
fn an_unknown_capability_is_rejected() {
    assert_eq!(
        error("require \"vacation\";").message,
        "unknown capability \"vacation\""
    );
}

#[test]
fn unknown_commands_and_tests_are_rejected_with_positions() {
    let error_command = error("keep;\nfrobnicate;");
    assert_eq!(error_command.message, "unknown command \"frobnicate\"");
    assert_eq!(error_command.line, 2);
    let error_test = error("if frobnicate { keep; }");
    assert_eq!(error_test.message, "unknown test \"frobnicate\"");
}

#[test]
fn duplicate_match_type_tags_are_rejected() {
    assert_eq!(
        error("if header :is :contains \"a\" \"b\" { keep; }").message,
        "duplicate match type"
    );
}

#[test]
fn the_octet_comparator_needs_its_capability() {
    assert_eq!(
        error("if header :comparator \"i;octet\" \"a\" \"b\" { keep; }").message,
        "\"comparator-i;octet\" must be required first"
    );
    assert!(parse(
        "require \"comparator-i;octet\";\nif header :comparator \"i;octet\" \"a\" \"b\" { keep; }"
    )
    .is_ok());
    assert_eq!(
        error("if header :comparator \"i;unicode\" \"a\" \"b\" { keep; }").message,
        "unknown comparator \"i;unicode\""
    );
}

#[test]
fn invalid_header_names_are_rejected() {
    assert_eq!(
        error("if exists \"bad name\" { keep; }").message,
        "invalid header name \"bad name\""
    );
    assert_eq!(
        error("if exists \"colon:name\" { keep; }").message,
        "invalid header name \"colon:name\""
    );
    assert_eq!(
        error("if exists \"\" { keep; }").message,
        "invalid header name \"\""
    );
}

#[test]
fn unclosed_blocks_and_stray_braces_are_rejected() {
    assert_eq!(
        error("if true { keep;").message,
        "unclosed block at end of script"
    );
    assert_eq!(error("}").message, "'}' without an open block");
    assert_eq!(
        error("elsif true { keep; }").message,
        "elsif without a preceding if"
    );
}

#[test]
fn else_cannot_be_followed_by_another_branch() {
    assert_eq!(
        error("if true { keep; } else { stop; } else { discard; }").message,
        "else block cannot be followed by another branch"
    );
}

#[test]
fn deep_block_nesting_is_rejected() {
    let mut source = String::new();
    for _ in 0..20 {
        source.push_str("if true { ");
    }
    source.push_str("keep;");
    for _ in 0..20 {
        source.push_str(" }");
    }
    assert_eq!(error(&source).message, "blocks are nested too deeply");
}

#[test]
fn deep_test_nesting_is_rejected() {
    let mut source = String::from("if ");
    for _ in 0..20 {
        source.push_str("allof (");
    }
    source.push_str("true");
    for _ in 0..20 {
        source.push(')');
    }
    source.push_str(" { keep; }");
    assert_eq!(error(&source).message, "tests are nested too deeply");
}

#[test]
fn oversized_string_lists_are_rejected() {
    let items: Vec<String> = (0..200).map(|i| format!("\"h{i}\"")).collect();
    let source = format!("if exists [{}] {{ keep; }}", items.join(", "));
    assert_eq!(error(&source).message, "list has too many items");
}

#[test]
fn encoded_characters_decode_only_when_required() {
    assert_eq!(
        instructions("require [\"fileinto\", \"encoded-character\"];\nfileinto \"${hex:40}\";")
            .pop(),
        Some(Instruction::FileInto("@".into()))
    );
    assert_eq!(
        instructions("require \"fileinto\";\nfileinto \"${hex:40}\";").pop(),
        Some(Instruction::FileInto("${hex:40}".into()))
    );
}

#[test]
fn capabilities_are_recorded_once_each() {
    let program =
        parse("require [\"fileinto\", \"imap4flags\"];\nrequire \"fileinto\";\nkeep;").unwrap();
    assert_eq!(program.capabilities, vec!["fileinto", "imap4flags"]);
}

#[test]
fn missing_semicolons_are_reported() {
    assert_eq!(error("keep").message, "expected ';'");
    assert_eq!(error("keep stop;").message, "expected ';'");
}
