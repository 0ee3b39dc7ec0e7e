use junit_report::cases::{
    CaseKind, TestCase, TestFailure, TestOutcome, TestOutput, TestOutputType, TestSuite,
};
use junit_report::junit::{junit_events, ReportEvent};

fn case(id: &str, outcome: TestOutcome) -> TestCase {
    TestCase {
        id: id.to_string(),
        outcome,
        kind: CaseKind::UnitTest,
    }
}

fn output(kind: TestOutputType, data: &str) -> TestOutput {
    TestOutput {
        kind,
        data: data.to_string(),
    }
}

#[test]
fn failed_case_carries_matching_outputs_in_order() {
    let suites = vec![TestSuite {
        id: "UnitTests".to_string(),
        cases: vec![case("x", TestOutcome::Failed), case("y", TestOutcome::Passed)],
        duration_millis: 1500,
    }];
    let failures = vec![
        TestFailure {
            id: "x".to_string(),
            outputs: vec![
                output(TestOutputType::Stdout, "first"),
                output(TestOutputType::Stderr, "second"),
            ],
        },
        TestFailure {
            id: "y".to_string(),
            outputs: vec![output(TestOutputType::Stdout, "never rendered")],
        },
    ];

    let events = junit_events(&suites, &failures);

    assert_eq!(
        events,
        vec![
            ReportEvent::RootStart { tests: 2 },
            ReportEvent::SuiteStart {
                id: "UnitTests".to_string(),
                tests: 2,
                duration_millis: 1500,
            },
            ReportEvent::CaseStart { id: "x".to_string() },
            ReportEvent::FailureDetail {
                message: "first".to_string(),
                kind: TestOutputType::Stdout,
            },
            ReportEvent::FailureDetail {
                message: "second".to_string(),
                kind: TestOutputType::Stderr,
            },
            ReportEvent::ElementEnd,
            ReportEvent::CaseStart { id: "y".to_string() },
            ReportEvent::ElementEnd,
            ReportEvent::ElementEnd,
            ReportEvent::ElementEnd,
        ]
    );
}

#[test]
fn root_count_is_sum_over_suites() {
    let suites = vec![
        TestSuite {
            id: "UnitTests".to_string(),
            cases: vec![case("a", TestOutcome::Passed), case("b", TestOutcome::Ignored)],
            duration_millis: 10,
        },
        TestSuite {
            id: "Doc-tests z".to_string(),
            cases: vec![case("c", TestOutcome::Passed)],
            duration_millis: 20,
        },
    ];
    let events = junit_events(&suites, &vec![]);
    assert_eq!(events[0], ReportEvent::RootStart { tests: 3 });
}

#[test]
fn failed_case_with_no_match_has_no_detail() {
    let suites = vec![TestSuite {
        id: "UnitTests".to_string(),
        cases: vec![case("lonely", TestOutcome::Failed)],
        duration_millis: 0,
    }];
    let events = junit_events(&suites, &vec![]);
    assert!(events
        .iter()
        .all(|e| !matches!(e, ReportEvent::FailureDetail { .. })));
}

#[test]
fn identifier_collision_attaches_across_suites() {
    // failure matching is not suite-scoped: a failure recorded anywhere
    // attaches to every failed case with the same identifier
    let suites = vec![
        TestSuite {
            id: "UnitTests".to_string(),
            cases: vec![case("dup", TestOutcome::Failed)],
            duration_millis: 0,
        },
        TestSuite {
            id: "Doc-tests d".to_string(),
            cases: vec![TestCase {
                id: "dup".to_string(),
                outcome: TestOutcome::Failed,
                kind: CaseKind::DocTest("d".to_string()),
            }],
            duration_millis: 0,
        },
    ];
    let failures = vec![TestFailure {
        id: "dup".to_string(),
        outputs: vec![output(TestOutputType::Stderr, "shared")],
    }];
    let events = junit_events(&suites, &failures);
    let details = events
        .iter()
        .filter(|e| matches!(e, ReportEvent::FailureDetail { .. }))
        .count();
    assert_eq!(2, details);
}
