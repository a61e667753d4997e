use irixmail::sieve::{CompileError, Compiler, CAPABILITIES};

#[test]
fn an_oversized_script_is_rejected_before_lexing() {
    let compiler = Compiler::new();
    let source = format!("# {}", "x".repeat(200 * 1024));
    assert_eq!(
        compiler.compile(&source).unwrap_err().message,
        "script exceeds the maximum size"
    );
}

#[test]
fn a_compiled_script_reports_its_required_capabilities() {
    let script = Compiler::new()
        .compile("require [\"fileinto\", \"envelope\"];\nkeep;")
        .unwrap();
    assert_eq!(script.capabilities(), ["fileinto", "envelope"]);
}

#[test]
fn the_advertised_capability_list_covers_the_supported_extensions() {
    for capability in CAPABILITIES {
        let source = format!("require \"{capability}\";\nkeep;");
        assert!(Compiler::new().compile(&source).is_ok(), "{capability}");
    }
}

#[test]
fn a_compile_error_displays_its_line_and_message() {
    let error = CompileError {
        line: 3,
        column: 7,
        message: "unknown command".into(),
    };
    assert_eq!(error.to_string(), "line 3: unknown command");
}

#[test]
fn a_script_at_the_size_limit_is_still_read() {
    let source = format!("#{}", "x".repeat(128 * 1024 - 1));
    assert!(Compiler::new().compile(&source).is_ok());
}
