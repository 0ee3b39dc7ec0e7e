use junit_report::cases::{CaseKind, TestOutcome, TestOutputType, TestSuite};

fn dlines(v: &[&str]) -> Vec<String> {
    v.iter().map(|s| s.to_string()).collect()
}

#[test]
fn discover_cases() {
    let test_data = dlines(&[
        "test module::passed ... ok",
        "test module::failed ... FAILED",
        "test result: FAILED. 1 passed; 1 failed; 0 ignored; 0 measured; 0 filtered out; finished in 2.50s",
        "    Doc-tests whatever",
        "test src/lib.rs - Struct::passed (line 20) ... ok",
        "test src/lib.rs - Struct::failed (line 50) ... FAILED",
        "test result: ok. 1 passed; 1 failed; 0 ignored; 0 measured; 0 filtered out; finished in 0.10s",
    ]);

    let suites = TestSuite::from(&test_data);
    assert_eq!(2, suites.len());

    assert_eq!("UnitTests", suites[0].id);
    assert_eq!(2500, suites[0].duration_millis);
    assert_eq!(2, suites[0].cases.len());
    assert_eq!("module::passed", suites[0].cases[0].id);
    assert_eq!(TestOutcome::Passed, suites[0].cases[0].outcome);
    assert_eq!(CaseKind::UnitTest, suites[0].cases[0].kind);
    assert_eq!("module::failed", suites[0].cases[1].id);
    assert_eq!(TestOutcome::Failed, suites[0].cases[1].outcome);

    assert_eq!("Doc-tests whatever", suites[1].id);
    assert_eq!(100, suites[1].duration_millis);
    assert_eq!(2, suites[1].cases.len());
    assert_eq!("src/lib.rs - Struct::passed (line 20)", suites[1].cases[0].id);
    assert_eq!(TestOutcome::Passed, suites[1].cases[0].outcome);
    assert_eq!(
        CaseKind::DocTest("whatever".to_string()),
        suites[1].cases[0].kind
    );
    assert_eq!("src/lib.rs - Struct::failed (line 50)", suites[1].cases[1].id);
    assert_eq!(TestOutcome::Failed, suites[1].cases[1].outcome);
}

#[test]
fn two_suites_with_doctest_context() {
    let suites = TestSuite::from(&dlines(&[
        "test a ... ok",
        "test b ... FAILED",
        "test result: FAILED. ...finished in 2.50s",
        "Doc-tests x",
        "test c ... ok",
        "test result: ok. ...finished in 0.10s",
    ]));
    assert_eq!(2, suites.len());
    assert_eq!("UnitTests", suites[0].id);
    assert_eq!(2500, suites[0].duration_millis);
    assert_eq!(2, suites[0].cases.len());
    assert_eq!("a", suites[0].cases[0].id);
    assert_eq!(TestOutcome::Passed, suites[0].cases[0].outcome);
    assert_eq!("b", suites[0].cases[1].id);
    assert_eq!(TestOutcome::Failed, suites[0].cases[1].outcome);
    assert_eq!("Doc-tests x", suites[1].id);
    assert_eq!(100, suites[1].duration_millis);
    assert_eq!(1, suites[1].cases.len());
    assert_eq!("c", suites[1].cases[0].id);
    assert_eq!(TestOutcome::Passed, suites[1].cases[0].outcome);
}

#[test]
fn result_identifier_produces_no_case() {
    let suites = TestSuite::from(&dlines(&["test result: ... ok", "finished in 1.00s"]));
    assert_eq!(0, suites.len());
}

#[test]
fn empty_buffer_flush_emits_no_suite() {
    let suites = TestSuite::from(&dlines(&["finished in 2.50s"]));
    assert_eq!(0, suites.len());

    let suites = TestSuite::from(&dlines(&[
        "test a ... ok",
        "finished in 0.10s",
        "finished in 9.99s",
    ]));
    assert_eq!(1, suites.len());
    assert_eq!(100, suites[0].duration_millis);
}

#[test]
fn doctest_context_is_sticky() {
    let suites = TestSuite::from(&dlines(&[
        "Doc-tests mylib",
        "test a ... ok",
        "finished in 0.10s",
        "test b ... ok",
        "finished in 0.20s",
    ]));
    assert_eq!(2, suites.len());
    assert_eq!("Doc-tests mylib", suites[0].id);
    assert_eq!("Doc-tests mylib", suites[1].id);
    assert_eq!(200, suites[1].duration_millis);
}

#[test]
fn duration_parsing_is_millisecond_exact() {
    let suites = TestSuite::from(&dlines(&["test a ... ok", "finished in 12.345s"]));
    assert_eq!(12345, suites[0].duration_millis);

    let suites = TestSuite::from(&dlines(&["test a ... ok", "finished in 1.2s"]));
    assert_eq!(1200, suites[0].duration_millis);

    // deeper precision than a millisecond is dropped
    let suites = TestSuite::from(&dlines(&["test a ... ok", "finished in 0.0009s"]));
    assert_eq!(0, suites[0].duration_millis);

    // the pattern may sit anywhere in the line
    let suites = TestSuite::from(&dlines(&[
        "test a ... ok",
        "test result: ok. 1 passed; finished in 0.75s",
    ]));
    assert_eq!(750, suites[0].duration_millis);
}

#[test]
fn unrecognized_outcome_token_is_unknown() {
    assert_eq!(TestOutcome::Passed, TestOutcome::from("ok"));
    assert_eq!(TestOutcome::Failed, TestOutcome::from("FAILED"));
    assert_eq!(TestOutcome::Ignored, TestOutcome::from("ignored"));
    assert_eq!(TestOutcome::Unknown, TestOutcome::from("exploded"));
    assert_eq!(TestOutcome::Unknown, TestOutcome::from(""));

    let suites = TestSuite::from(&dlines(&["test a ... mystery", "finished in 0.10s"]));
    assert_eq!(TestOutcome::Unknown, suites[0].cases[0].outcome);
}

#[test]
fn output_type_tokens_round_trip() {
    assert_eq!(TestOutputType::Stdout, TestOutputType::from("stdout"));
    assert_eq!(TestOutputType::Stderr, TestOutputType::from("stderr"));
    assert_eq!(TestOutputType::Unknown, TestOutputType::from("other"));
    assert_eq!("stdout", TestOutputType::Stdout.to_string());
    assert_eq!("stderr", TestOutputType::Stderr.to_string());
    assert_eq!("unknown", TestOutputType::Unknown.to_string());
}
