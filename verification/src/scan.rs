//! The suite scanner: a single forward pass over the line sequence,
//! carrying a case-kind context and a buffer of pending cases, and
//! closing the buffer into a suite at each duration line.

use vstd::prelude::*;
use vstd::string::*;
use crate::cases::{
    CaseKind, CaseModel, KindModel, SuiteModel, TestCase, TestOutcome, TestSuite,
    outcome_of_token,
};
use crate::grammar::{
    case_id, case_token, doctest_label, is_case_line, is_doctest_line, is_duration_line,
    line_duration_millis, match_case, match_doctest, match_duration,
};
use crate::text::str_eq;

verus! {

/// Scanner state: the current case-kind context, the buffer of pending
/// cases, and the suites closed so far.
pub struct ScanState {
    pub context: KindModel,
    pub buffer: Seq<CaseModel>,
    pub suites: Seq<SuiteModel>,
}

/// Initial scanner state: unit-test context, nothing pending.
pub open spec fn scan_init() -> ScanState {
    ScanState { context: KindModel::UnitTest, buffer: Seq::empty(), suites: Seq::empty() }
}

/// The suite identifier a context labels its suites with.
pub open spec fn kind_suite_id(k: KindModel) -> Seq<char> {
    match k {
        KindModel::UnitTest => "UnitTests"@,
        KindModel::DocTest(label) => "Doc-tests "@ + label,
    }
}

/// One line's effect on the scanner state: the doc-test context switch,
/// the case record (its synthetic `result:` identifier filtered), and the
/// duration flush, checked independently in that order. A duration line
/// with an empty buffer closes no suite and its duration is discarded.
pub open spec fn scan_step(st: ScanState, l: Seq<char>) -> ScanState {
    let st1 = if is_doctest_line(l) {
        ScanState { context: KindModel::DocTest(doctest_label(l)), ..st }
    } else {
        st
    };
    let st2 = if is_case_line(l) && case_id(l) != "result:"@ {
        ScanState {
            buffer: st1.buffer.push(
                CaseModel {
                    id: case_id(l),
                    outcome: outcome_of_token(case_token(l)),
                    kind: st1.context,
                },
            ),
            ..st1
        }
    } else {
        st1
    };
    if is_duration_line(l) && st2.buffer.len() > 0 {
        ScanState {
            context: st2.context,
            buffer: Seq::empty(),
            suites: st2.suites.push(
                SuiteModel {
                    id: kind_suite_id(st2.context),
                    cases: st2.buffer,
                    duration_millis: line_duration_millis(l),
                },
            ),
        }
    } else {
        st2
    }
}

/// Scanner state after processing the lines in order, starting from `st`.
pub open spec fn scan_from(st: ScanState, lines: Seq<Seq<char>>) -> ScanState
    decreases lines.len(),
{
    if lines.len() == 0 {
        st
    } else {
        scan_step(scan_from(st, lines.drop_last()), lines.last())
    }
}

/// The ordered suites produced by scanning the lines.
pub open spec fn scan_suites(lines: Seq<Seq<char>>) -> Seq<SuiteModel> {
    scan_from(scan_init(), lines).suites
}

/// The cases held by a sequence of suites, flattened in order.
pub open spec fn suites_cases(suites: Seq<SuiteModel>) -> Seq<CaseModel>
    decreases suites.len(),
{
    if suites.len() == 0 {
        Seq::empty()
    } else {
        suites_cases(suites.drop_last()) + suites.last().cases
    }
}

/// Every case a scanner state has recorded: those already closed into
/// suites, then those still pending.
pub open spec fn state_cases(st: ScanState) -> Seq<CaseModel> {
    suites_cases(st.suites) + st.buffer
}

/// A case line whose identifier is exactly `result:` never produces a
/// case: such a line leaves the recorded cases unchanged.
pub proof fn lemma_result_case_filtered(st: ScanState, l: Seq<char>)
    requires
        is_case_line(l),
        case_id(l) == "result:"@,
    ensures
        state_cases(scan_step(st, l)) == state_cases(st),
{
    let st3 = scan_step(st, l);
    if is_duration_line(l) && st.buffer.len() > 0 {
        let flushed = SuiteModel {
            id: kind_suite_id(st3.context),
            cases: st.buffer,
            duration_millis: line_duration_millis(l),
        };
        assert(st.suites.push(flushed).drop_last() =~= st.suites);
        assert(suites_cases(st.suites.push(flushed)) == suites_cases(st.suites) + st.buffer);
        assert(state_cases(st3) =~= state_cases(st));
    } else {
        assert(state_cases(st3) =~= state_cases(st));
    }
}

/// A duration line arriving with no cases buffered closes no suite and
/// buffers nothing: both parts of the state are unchanged. (A crafted
/// line that is also a case record is no plain duration line and is
/// left out.)
pub proof fn lemma_empty_buffer_flush(st: ScanState, l: Seq<char>)
    requires
        is_duration_line(l),
        st.buffer.len() == 0,
        !(is_case_line(l) && case_id(l) != "result:"@),
    ensures
        scan_step(st, l).suites == st.suites,
        scan_step(st, l).buffer == st.buffer,
{
}

/// The doc-test context is sticky: as long as no further `Doc-tests`
/// line arrives, the context stays what it was, over any run of lines.
pub proof fn lemma_doctest_context_sticks(st: ScanState, lines: Seq<Seq<char>>)
    requires
        forall|i: int| 0 <= i < lines.len() ==> !is_doctest_line(lines[i]),
    ensures
        scan_from(st, lines).context == st.context,
    decreases lines.len(),
{
    if lines.len() > 0 {
        lemma_doctest_context_sticks(st, lines.drop_last());
    }
}

/// A duration flush labels the new suite with the current context's
/// identifier: under a doc-test context still `Doc-tests {label}`, not
/// the unit-test label.
pub proof fn lemma_flush_labeled_by_context(st: ScanState, l: Seq<char>)
    requires
        is_duration_line(l),
        !is_doctest_line(l),
        st.buffer.len() > 0 || (is_case_line(l) && case_id(l) != "result:"@),
    ensures
        scan_step(st, l).suites.len() == st.suites.len() + 1,
        scan_step(st, l).suites.last().id == kind_suite_id(st.context),
{
}

/// The suite identifier of the current context, as a `String`.
fn suite_id_string(k: &CaseKind) -> (r: String)
    ensures
        r@ == kind_suite_id(k@),
{
    match k {
        CaseKind::UnitTest => String::from_str("UnitTests"),
        CaseKind::DocTest(label) => String::from_str("Doc-tests ").concat(label.as_str()),
    }
}

impl TestSuite {
    /// Single forward pass over the line sequence producing the ordered
    /// list of test suites, as `scan_suites` describes.
    pub fn from(lines: &Vec<String>) -> (r: Vec<TestSuite>)
        ensures
            r@.map_values(|s: TestSuite| s@) == scan_suites(
                lines@.map_values(|l: String| l@),
            ),
    {
        let ghost gl = lines@.map_values(|l: String| l@);
        let mut context: CaseKind = CaseKind::UnitTest;
        let mut buffer: Vec<TestCase> = Vec::new();
        let mut suites: Vec<TestSuite> = Vec::new();
        let mut i: usize = 0;
        proof {
            assert(gl.take(0) =~= Seq::<Seq<char>>::empty());
            assert(buffer@.map_values(|c: TestCase| c@) =~= Seq::<CaseModel>::empty());
            assert(suites@.map_values(|s: TestSuite| s@) =~= Seq::<SuiteModel>::empty());
        }
        while i < lines.len()
            invariant
                i <= lines.len(),
                gl == lines@.map_values(|l: String| l@),
                gl.len() == lines@.len(),
                context@ == scan_from(scan_init(), gl.take(i as int)).context,
                buffer@.map_values(|c: TestCase| c@) == scan_from(
                    scan_init(),
                    gl.take(i as int),
                ).buffer,
                suites@.map_values(|s: TestSuite| s@) == scan_from(
                    scan_init(),
                    gl.take(i as int),
                ).suites,
            decreases lines.len() - i,
        {
            let ghost st_old = scan_from(scan_init(), gl.take(i as int));
            let line: &str = lines[i].as_str();
            proof {
                assert(gl[i as int] == line@);
            }
            let ghost l = line@;
            match match_doctest(line) {
                Some(label) => {
                    context = CaseKind::DocTest(label);
                },
                None => {},
            }
            let ghost st1 = if is_doctest_line(l) {
                ScanState { context: KindModel::DocTest(doctest_label(l)), ..st_old }
            } else {
                st_old
            };
            proof {
                assert(context@ == st1.context);
            }
            match match_case(line) {
                Some(captures) => {
                    let (id, token) = captures;
                    if !str_eq(id.as_str(), "result:") {
                        let outcome = TestOutcome::from(token.as_str());
                        buffer.push(TestCase { id, outcome, kind: context.dup() });
                    }
                },
                None => {},
            }
            let ghost st2 = if is_case_line(l) && case_id(l) != "result:"@ {
                ScanState {
                    buffer: st1.buffer.push(
                        CaseModel {
                            id: case_id(l),
                            outcome: outcome_of_token(case_token(l)),
                            kind: st1.context,
                        },
                    ),
                    ..st1
                }
            } else {
                st1
            };
            proof {
                assert(buffer@.map_values(|c: TestCase| c@) =~= st2.buffer);
            }
            match match_duration(line) {
                Some(millis) => {
                    if buffer.len() > 0 {
                        let sid = suite_id_string(&context);
                        let cases = buffer;
                        buffer = Vec::new();
                        suites.push(TestSuite { id: sid, cases, duration_millis: millis });
                    }
                },
                None => {},
            }
            proof {
                let st_new = scan_step(st_old, l);
                assert(buffer@.map_values(|c: TestCase| c@) =~= st_new.buffer);
                assert(suites@.map_values(|s: TestSuite| s@) =~= st_new.suites);
                assert(context@ == st_new.context);
            }
            i += 1;
            proof {
                assert(gl.take(i as int).drop_last() =~= gl.take(i - 1));
                assert(gl.take(i as int).last() == l);
                assert(scan_from(scan_init(), gl.take(i as int)) == scan_step(st_old, l));
            }
        }
        proof {
            assert(gl.take(gl.len() as int) =~= gl);
        }
        suites
    }
}

} // verus!
