use junit_report::cases::{TestFailures, TestOutputType};

fn xlines(v: &[&str]) -> Vec<String> {
    v.iter().map(|s| s.to_string()).collect()
}

#[test]
fn discover_failures() {
    let test_data = xlines(&[
        "",
        "---- src/lib.rs - Monetary::zero (line 50) stdout ----",
        "Test executable failed (exit code 101).",
        "",
        "stderr:",
        "thread 'main' panicked at 'assertion failed: false', src/lib.rs:9:1",
        "note: run with `RUST_BACKTRACE=1` environment variable to display a backtrace",
        "",
        "---- tests::test_is_zero stdout ----",
        "thread 'tests::test_is_zero' panicked at 'assertion failed: false', src/lib.rs:186:9",
        "note: run with `RUST_BACKTRACE=1` environment variable to display a backtrace",
        "",
    ]);

    let failures = TestFailures::from(&test_data);

    assert_eq!(2, failures.len());
}

#[test]
fn stdout_then_trailing_stderr() {
    let failures = TestFailures::from(&xlines(&[
        "---- id stdout ----",
        "line1",
        "line2",
        "",
        "stderr:",
        "line3",
        "",
    ]));
    assert_eq!(1, failures.len());
    assert_eq!("id", failures[0].id);
    assert_eq!(2, failures[0].outputs.len());
    assert_eq!(TestOutputType::Stdout, failures[0].outputs[0].kind);
    assert_eq!("line1\nline2", failures[0].outputs[0].data);
    assert_eq!(TestOutputType::Stderr, failures[0].outputs[1].kind);
    assert_eq!("line3", failures[0].outputs[1].data);
}

#[test]
fn stderr_before_any_header_is_dropped() {
    let failures = TestFailures::from(&xlines(&["stderr:", "boom", ""]));
    assert_eq!(0, failures.len());
}

#[test]
fn unterminated_header_block_keeps_empty_failure() {
    let failures = TestFailures::from(&xlines(&["---- a stdout ----", "body1", "body2"]));
    assert_eq!(1, failures.len());
    assert_eq!("a", failures[0].id);
    assert_eq!(0, failures[0].outputs.len());
}

#[test]
fn header_identifier_may_hold_spaces() {
    let failures = TestFailures::from(&xlines(&[
        "---- src/lib.rs - Monetary::zero (line 50) stderr ----",
        "whatever happened",
        "",
    ]));
    assert_eq!(1, failures.len());
    assert_eq!("src/lib.rs - Monetary::zero (line 50)", failures[0].id);
    assert_eq!(1, failures[0].outputs.len());
    assert_eq!(TestOutputType::Stderr, failures[0].outputs[0].kind);
    assert_eq!("whatever happened", failures[0].outputs[0].data);
}

#[test]
fn unrecognized_header_type_is_unknown() {
    let failures = TestFailures::from(&xlines(&["---- a weird ----", "x", ""]));
    assert_eq!(1, failures.len());
    assert_eq!(TestOutputType::Unknown, failures[0].outputs[0].kind);
}

#[test]
fn body_lines_are_not_retested_as_headers() {
    // a body line shaped like a header stays body text
    let failures = TestFailures::from(&xlines(&[
        "---- a stdout ----",
        "---- b stdout ----",
        "",
    ]));
    assert_eq!(1, failures.len());
    assert_eq!("a", failures[0].id);
    assert_eq!("---- b stdout ----", failures[0].outputs[0].data);
}
