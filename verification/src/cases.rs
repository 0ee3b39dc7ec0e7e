//! The report model: outcomes, cases, output blocks, failures and suites,
//! with their mathematical views.

use vstd::prelude::*;
use crate::text::str_eq;

verus! {

/// Terminal outcome of one test case, read verbatim from an outcome token.
#[derive(Debug, PartialEq, Eq, Structural, Clone, Copy)]
pub enum TestOutcome {
    Unknown,
    Passed,
    Failed,
    Ignored,
}

/// The outcome a token denotes; unrecognized tokens mean `Unknown`, never an error.
pub open spec fn outcome_of_token(s: Seq<char>) -> TestOutcome {
    if s == "ok"@ {
        TestOutcome::Passed
    } else if s == "FAILED"@ {
        TestOutcome::Failed
    } else if s == "ignored"@ {
        TestOutcome::Ignored
    } else {
        TestOutcome::Unknown
    }
}

impl TestOutcome {
    pub fn from(text: &str) -> (r: TestOutcome)
        ensures
            r == outcome_of_token(text@),
    {
        if str_eq(text, "ok") {
            TestOutcome::Passed
        } else if str_eq(text, "FAILED") {
            TestOutcome::Failed
        } else if str_eq(text, "ignored") {
            TestOutcome::Ignored
        } else {
            TestOutcome::Unknown
        }
    }
}

/// Which logical group a case belongs to: the default unit-test group, or a
/// labeled doc-test group. Set by scanner context, not per-case input.
#[derive(Debug, Clone, PartialEq)]
pub enum CaseKind {
    UnitTest,
    DocTest(String),
}

/// Mathematical view of a `CaseKind`.
#[verifier::ext_equal]
pub enum KindModel {
    UnitTest,
    DocTest(Seq<char>),
}

impl View for CaseKind {
    type V = KindModel;

    open spec fn view(&self) -> KindModel {
        match self {
            CaseKind::UnitTest => KindModel::UnitTest,
            CaseKind::DocTest(label) => KindModel::DocTest(label@),
        }
    }
}

impl CaseKind {
    /// A copy with the same view.
    pub fn dup(&self) -> (r: CaseKind)
        ensures
            r@ == self@,
    {
        match self {
            CaseKind::UnitTest => CaseKind::UnitTest,
            CaseKind::DocTest(label) => CaseKind::DocTest(label.clone()),
        }
    }
}

/// One named test with its terminal outcome and group kind.
#[derive(Debug, PartialEq)]
pub struct TestCase {
    pub id: String,
    pub outcome: TestOutcome,
    pub kind: CaseKind,
}

/// Mathematical view of a `TestCase`.
#[verifier::ext_equal]
pub struct CaseModel {
    pub id: Seq<char>,
    pub outcome: TestOutcome,
    pub kind: KindModel,
}

impl View for TestCase {
    type V = CaseModel;

    open spec fn view(&self) -> CaseModel {
        CaseModel { id: self.id@, outcome: self.outcome, kind: self.kind@ }
    }
}

/// Kind of one captured output blob.
#[derive(Debug, PartialEq, Eq, Structural, Clone, Copy)]
pub enum TestOutputType {
    Unknown,
    Stdout,
    Stderr,
}

/// The output kind a type token denotes; unrecognized tokens mean `Unknown`.
pub open spec fn output_type_of_token(s: Seq<char>) -> TestOutputType {
    if s == "stdout"@ {
        TestOutputType::Stdout
    } else if s == "stderr"@ {
        TestOutputType::Stderr
    } else {
        TestOutputType::Unknown
    }
}

impl TestOutputType {
    pub fn from(text: &str) -> (r: TestOutputType)
        ensures
            r == output_type_of_token(text@),
    {
        if str_eq(text, "stdout") {
            TestOutputType::Stdout
        } else if str_eq(text, "stderr") {
            TestOutputType::Stderr
        } else {
            TestOutputType::Unknown
        }
    }

    pub fn to_string(&self) -> (r: &str)
        ensures
            self is Unknown ==> r@ == "unknown"@,
            self is Stdout ==> r@ == "stdout"@,
            self is Stderr ==> r@ == "stderr"@,
    {
        match self {
            TestOutputType::Unknown => "unknown",
            TestOutputType::Stdout => "stdout",
            TestOutputType::Stderr => "stderr",
        }
    }
}

/// One captured text blob (newline-joined verbatim body lines).
#[derive(Debug, PartialEq)]
pub struct TestOutput {
    pub kind: TestOutputType,
    pub data: String,
}

/// Mathematical view of a `TestOutput`.
#[verifier::ext_equal]
pub struct OutputModel {
    pub kind: TestOutputType,
    pub data: Seq<char>,
}

impl View for TestOutput {
    type V = OutputModel;

    open spec fn view(&self) -> OutputModel {
        OutputModel { kind: self.kind, data: self.data@ }
    }
}

/// Captured output blocks attached to one failing case identifier.
#[derive(Debug, PartialEq)]
pub struct TestFailure {
    pub id: String,
    pub outputs: Vec<TestOutput>,
}

/// Mathematical view of a `TestFailure`.
#[verifier::ext_equal]
pub struct FailureModel {
    pub id: Seq<char>,
    pub outputs: Seq<OutputModel>,
}

impl View for TestFailure {
    type V = FailureModel;

    open spec fn view(&self) -> FailureModel {
        FailureModel {
            id: self.id@,
            outputs: self.outputs@.map_values(|o: TestOutput| o@),
        }
    }
}

/// A named, ordered group of cases sharing one reported duration.
/// The duration is held in whole milliseconds.
#[derive(Debug, PartialEq)]
pub struct TestSuite {
    pub id: String,
    pub cases: Vec<TestCase>,
    pub duration_millis: u64,
}

/// Mathematical view of a `TestSuite`.
#[verifier::ext_equal]
pub struct SuiteModel {
    pub id: Seq<char>,
    pub cases: Seq<CaseModel>,
    pub duration_millis: u64,
}

impl View for TestSuite {
    type V = SuiteModel;

    open spec fn view(&self) -> SuiteModel {
        SuiteModel {
            id: self.id@,
            cases: self.cases@.map_values(|c: TestCase| c@),
            duration_millis: self.duration_millis,
        }
    }
}

/// Namespace for the failure-extraction pass.
pub struct TestFailures {}

} // verus!
