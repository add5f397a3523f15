//! Which tool looks at a file, and what its running means.

use weave_patch_mcp::validator::{has_issue, judge, plan_check, CheckMode, RunOutcome};

/// A tool that ran to its end.
fn ran(success: bool, stdout: &str, stderr: &str) -> RunOutcome {
    RunOutcome::Finished {
        success,
        status: if success { "exit status: 0" } else { "exit status: 1" }.to_string(),
        stdout: stdout.to_string(),
        stderr: stderr.to_string(),
    }
}

/// The advice on a file, for how the tool for it ran.
fn validate_file(path: &str, run: RunOutcome) -> Vec<String> {
    match plan_check(path, path) {
        Some(check) => judge(&check, &run),
        None => Vec::new(),
    }
}

fn command(path: &str) -> String {
    let check = plan_check("/shadow", path).unwrap();
    format!("{} {}", check.program, check.args.join(" "))
}

#[test]
fn each_extension_has_its_tool() {
    assert_eq!(command("a.rs"), "rustfmt --check /shadow");
    assert_eq!(command("a.tf"), "terraform fmt -check /shadow");
    assert_eq!(command("a.hcl"), "terraform fmt -check /shadow");
    assert_eq!(command("a.py"), "python -m py_compile /shadow");
    assert_eq!(command("a.json"), "python3 -m json.tool /shadow");
    assert_eq!(command("a.js"), "node --check /shadow");
    assert_eq!(command("a.jsx"), "node --check /shadow");
    assert_eq!(command("a.go"), "gofmt -l /shadow");
    assert_eq!(command("a.sh"), "bash -n /shadow");
    assert_eq!(command("a.bash"), "bash -n /shadow");
    let go = plan_check("/shadow", "x/main.go").unwrap();
    assert_eq!(go.mode, CheckMode::NonEmptyStdout);
    assert_eq!(go.extension, "go");
    assert_eq!(plan_check("/shadow", "a.rs").unwrap().mode, CheckMode::ExitCode);
}

#[test]
fn rustfmt_valid_file_returns_empty() {
    let result = validate_file("/t/valid.rs", ran(true, "", ""));
    assert!(
        result.is_empty(),
        "Valid Rust file should return no advisories, got: {:?}",
        result
    );
}

#[test]
fn rustfmt_invalid_file_returns_advisory() {
    let result = validate_file("/t/invalid.rs", ran(false, "Diff in /t/invalid.rs:1:\n", ""));
    assert!(
        !result.is_empty(),
        "Invalid formatting should return advisory"
    );
    assert!(
        result[0].contains("Advisory"),
        "Should contain Advisory prefix: {}",
        result[0]
    );
    assert_eq!(result, vec!["Advisory (rustfmt): Diff in /t/invalid.rs:1:".to_string()]);
}

#[test]
fn rustfmt_syntax_error_returns_advisory() {
    let result = validate_file("/t/e.rs", ran(false, "ignored", " error: expected expression \n"));
    assert_eq!(result, vec!["Advisory (rustfmt): error: expected expression".to_string()]);
}

#[test]
fn python_valid_file_returns_empty() {
    assert!(validate_file("/t/valid.py", ran(true, "", "")).is_empty());
}

#[test]
fn python_invalid_syntax_returns_advisory() {
    let result = validate_file("/t/invalid.py", ran(false, "", "SyntaxError: '(' was never closed"));
    assert!(
        !result.is_empty(),
        "Invalid Python syntax should return advisory"
    );
    assert!(
        result[0].contains("Advisory"),
        "Should contain Advisory prefix: {}",
        result[0]
    );
}

#[test]
fn python_indentation_error_returns_advisory() {
    let result = validate_file("/t/indent_error.py", ran(false, "", "IndentationError\n"));
    assert_eq!(result, vec!["Advisory (python): IndentationError".to_string()]);
}

#[test]
fn gofmt_valid_file_returns_empty() {
    assert!(validate_file("/t/valid.go", ran(true, " \n\t", "")).is_empty());
}

#[test]
fn gofmt_invalid_formatting_returns_advisory() {
    let result = validate_file("/t/invalid.go", ran(true, "/t/invalid.go\n", ""));
    assert!(
        !result.is_empty(),
        "Unformatted Go file should return advisory"
    );
    assert!(
        result[0].contains("gofmt"),
        "Should mention gofmt: {}",
        result[0]
    );
    assert_eq!(result[0], "Advisory (gofmt): file needs formatting");
}

#[test]
fn gofmt_syntax_error_returns_advisory() {
    let result = validate_file("/t/syntax_error.go", ran(false, "", ""));
    assert_eq!(result, vec!["Advisory (gofmt): exit code exit status: 1".to_string()]);
}

#[test]
fn json_valid_file_returns_empty() {
    assert!(validate_file("/t/valid.json", ran(true, "{}", "")).is_empty());
}

#[test]
fn json_invalid_syntax_returns_advisory() {
    let result = validate_file("/t/invalid.json", ran(false, "", "Illegal trailing comma"));
    assert!(!result.is_empty(), "Invalid JSON should return advisory");
    assert!(
        result[0].contains("Advisory"),
        "Should contain Advisory prefix: {}",
        result[0]
    );
}

#[test]
fn json_malformed_returns_advisory() {
    let result = validate_file("/t/malformed.json", ran(false, "", "Expecting value"));
    assert_eq!(result, vec!["Advisory (python3): Expecting value".to_string()]);
}

#[test]
fn bash_valid_script_returns_empty() {
    assert!(validate_file("/t/valid.sh", ran(true, "", "")).is_empty());
}

#[test]
fn bash_invalid_syntax_returns_advisory() {
    let result = validate_file("/t/invalid.sh", ran(false, "", "syntax error near `fi'"));
    assert!(
        !result.is_empty(),
        "Invalid bash syntax should return advisory"
    );
    assert!(
        result[0].contains("Advisory"),
        "Should contain Advisory prefix: {}",
        result[0]
    );
}

#[test]
fn tool_not_found_returns_skip_advisory() {
    // .xyz is not a supported extension, so it should return empty
    let result = validate_file("/t/test.xyz", RunOutcome::NotFound);
    assert!(result.is_empty(), "Unknown extension should return empty");
    // A supported extension says which tool is missing.
    let result = validate_file("/t/test.rs", RunOutcome::NotFound);
    assert_eq!(
        result,
        vec!["Advisory: rustfmt not found — skipping rs syntax check".to_string()]
    );
}

#[test]
fn unknown_extension_returns_empty() {
    let result = validate_file("/t/file.xyz", ran(false, "", "x"));
    assert!(
        result.is_empty(),
        "Unknown extension should return empty vec"
    );
}

#[test]
fn empty_file_no_extension_returns_empty() {
    let result = validate_file("/t/no_extension", ran(false, "", "x"));
    assert!(
        result.is_empty(),
        "File with no extension should return empty vec"
    );
}

#[test]
fn terraform_valid_file_returns_empty() {
    assert!(validate_file("/t/valid.tf", ran(true, "", "")).is_empty());
}

#[test]
fn javascript_valid_file_returns_empty() {
    let result = validate_file("/t/valid.js", ran(true, "", ""));
    assert!(
        result.is_empty(),
        "Valid JS file should return no advisories, got: {:?}",
        result
    );
}

#[test]
fn test_validator_unknown_extension() {
    let warnings = validate_file("/t/data.xyz", ran(false, "", "x"));
    assert!(
        warnings.is_empty(),
        "unknown extension must produce no warnings, got: {warnings:?}"
    );
}

#[test]
fn test_validator_json_valid() {
    // python3 may not be present; accept either clean or "not found"
    for run in [ran(true, "{}", ""), RunOutcome::NotFound] {
        for w in &validate_file("/t/data.json", run) {
            assert!(w.contains("Advisory"), "unexpected warning: {w}");
        }
    }
}

#[test]
fn test_validator_json_invalid() {
    // must either flag Advisory or report tool not found
    for run in [ran(false, "", "Expecting property name"), RunOutcome::NotFound] {
        let warnings = validate_file("/t/bad.json", run);
        assert!(!warnings.is_empty(), "invalid JSON must produce a warning");
        assert!(
            warnings[0].contains("Advisory"),
            "warning must start with Advisory, got: {:?}",
            warnings[0]
        );
    }
}

#[test]
fn test_validator_sh_valid() {
    for w in &validate_file("/t/script.sh", ran(true, "", "")) {
        assert!(
            w.contains("Advisory"),
            "unexpected warning for valid shell: {w}"
        );
    }
}

#[test]
fn test_validator_sh_invalid() {
    let warnings = validate_file("/t/bad.sh", ran(false, "", "syntax error near `then'"));
    assert!(!warnings.is_empty(), "invalid shell must produce a warning");
    assert!(
        warnings[0].contains("Advisory"),
        "warning must start with Advisory, got: {:?}",
        warnings[0]
    );
}

#[test]
fn test_validator_js_valid() {
    for w in &validate_file("/t/script.js", RunOutcome::NotFound) {
        assert!(
            w.contains("Advisory"),
            "unexpected warning for valid JS: {w}"
        );
    }
}

#[test]
fn test_validator_go_extension() {
    // gofmt -l prints the filename when formatting is needed;
    // if gofmt is absent the advisory "not found" fires instead.
    // Either way at least one Advisory must be produced.
    for run in [ran(true, "/t/main.go\n", ""), RunOutcome::NotFound] {
        let warnings = validate_file("/t/main.go", run);
        assert!(
            !warnings.is_empty(),
            "go extension must produce at least one warning (format advisory or not-found)"
        );
        assert!(
            warnings[0].contains("Advisory"),
            "warning must contain Advisory, got: {:?}",
            warnings[0]
        );
    }
}

#[test]
fn a_tool_that_does_not_end_well_is_named() {
    assert_eq!(
        validate_file("/t/a.py", RunOutcome::TimedOut),
        vec!["validator 'python' timed out after 2s".to_string()]
    );
    assert_eq!(
        validate_file("/t/a.py", RunOutcome::Failed("no memory".to_string())),
        vec!["validator 'python' failed: no memory".to_string()]
    );
}

#[test]
fn only_a_tool_that_ran_speaks_against_a_file() {
    let rust = plan_check("/shadow", "a.rs").unwrap();
    assert!(has_issue(&rust, &ran(false, "", "bad")));
    assert!(!has_issue(&rust, &ran(true, "some words", "")));
    assert!(!has_issue(&rust, &RunOutcome::NotFound));
    assert!(!has_issue(&rust, &RunOutcome::TimedOut));
    assert!(!has_issue(&rust, &RunOutcome::Failed("denied".to_string())));
    let go = plan_check("/shadow", "a.go").unwrap();
    assert!(has_issue(&go, &ran(true, "a.go\n", "")));
    assert!(has_issue(&go, &ran(false, "", "")));
    assert!(!has_issue(&go, &ran(true, " \n", "")));
}
