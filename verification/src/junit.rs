//! The report emitter: walks suites and cases, joins failure detail by
//! case identifier over the whole failures collection, and emits the
//! nested report as an ordered sequence of structured write events.

use vstd::prelude::*;
use vstd::string::*;
use crate::cases::{
    CaseModel, FailureModel, OutputModel, SuiteModel, TestFailure, TestOutcome, TestOutputType,
    TestSuite,
};
use crate::text::str_eq;

verus! {

/// One structured write event of the emitted report document. Start
/// events open a nested element; `ElementEnd` closes the innermost open
/// one; `FailureDetail` is a leaf.
#[derive(Debug, PartialEq)]
pub enum ReportEvent {
    RootStart { tests: usize },
    SuiteStart { id: String, tests: usize, duration_millis: u64 },
    CaseStart { id: String },
    FailureDetail { message: String, kind: TestOutputType },
    ElementEnd,
}

/// Mathematical view of a `ReportEvent`.
#[verifier::ext_equal]
pub enum EventModel {
    RootStart { tests: usize },
    SuiteStart { id: Seq<char>, tests: usize, duration_millis: u64 },
    CaseStart { id: Seq<char> },
    FailureDetail { message: Seq<char>, kind: TestOutputType },
    ElementEnd,
}

impl View for ReportEvent {
    type V = EventModel;

    open spec fn view(&self) -> EventModel {
        match self {
            ReportEvent::RootStart { tests } => EventModel::RootStart { tests: *tests },
            ReportEvent::SuiteStart { id, tests, duration_millis } => EventModel::SuiteStart {
                id: id@,
                tests: *tests,
                duration_millis: *duration_millis,
            },
            ReportEvent::CaseStart { id } => EventModel::CaseStart { id: id@ },
            ReportEvent::FailureDetail { message, kind } => EventModel::FailureDetail {
                message: message@,
                kind: *kind,
            },
            ReportEvent::ElementEnd => EventModel::ElementEnd,
        }
    }
}

/// Sum over the suites of their case counts.
pub open spec fn total_cases(suites: Seq<SuiteModel>) -> nat
    decreases suites.len(),
{
    if suites.len() == 0 {
        0
    } else {
        total_cases(suites.drop_last()) + suites.last().cases.len()
    }
}

/// A count clamped to what `usize` can hold.
pub open spec fn sat_usize(n: nat) -> usize {
    if n <= usize::MAX {
        n as usize
    } else {
        usize::MAX
    }
}

/// One failure-detail event per output block, in the blocks' order.
pub open spec fn outputs_events(outs: Seq<OutputModel>) -> Seq<EventModel>
    decreases outs.len(),
{
    if outs.len() == 0 {
        Seq::empty()
    } else {
        outputs_events(outs.drop_last()).push(
            EventModel::FailureDetail { message: outs.last().data, kind: outs.last().kind },
        )
    }
}

/// The failure-detail events for one case identifier: every failure of
/// the whole collection whose identifier equals it contributes its
/// outputs' events, in collection order.
pub open spec fn failure_events(cid: Seq<char>, failures: Seq<FailureModel>) -> Seq<EventModel>
    decreases failures.len(),
{
    if failures.len() == 0 {
        Seq::empty()
    } else {
        failure_events(cid, failures.drop_last()) + (if failures.last().id == cid {
            outputs_events(failures.last().outputs)
        } else {
            Seq::empty()
        })
    }
}

/// The events of one case element: failure detail is attached if and
/// only if the case's outcome is `Failed`.
pub open spec fn case_events(c: CaseModel, failures: Seq<FailureModel>) -> Seq<EventModel> {
    seq![EventModel::CaseStart { id: c.id }] + (if c.outcome == TestOutcome::Failed {
        failure_events(c.id, failures)
    } else {
        Seq::empty()
    }) + seq![EventModel::ElementEnd]
}

/// The events of a sequence of case elements, in order.
pub open spec fn cases_events(cases: Seq<CaseModel>, failures: Seq<FailureModel>) -> Seq<
    EventModel,
>
    decreases cases.len(),
{
    if cases.len() == 0 {
        Seq::empty()
    } else {
        cases_events(cases.drop_last(), failures) + case_events(cases.last(), failures)
    }
}

/// The events of one suite element.
pub open spec fn suite_events(s: SuiteModel, failures: Seq<FailureModel>) -> Seq<EventModel> {
    seq![
        EventModel::SuiteStart {
            id: s.id,
            tests: sat_usize(s.cases.len()),
            duration_millis: s.duration_millis,
        },
    ] + cases_events(s.cases, failures) + seq![EventModel::ElementEnd]
}

/// The events of a sequence of suite elements, in order.
pub open spec fn suites_events(suites: Seq<SuiteModel>, failures: Seq<FailureModel>) -> Seq<
    EventModel,
>
    decreases suites.len(),
{
    if suites.len() == 0 {
        Seq::empty()
    } else {
        suites_events(suites.drop_last(), failures) + suite_events(suites.last(), failures)
    }
}

/// The whole report: a root element counting all cases, one element per
/// suite in input order, one per case in suite order, failure detail
/// joined by identifier at emission time.
pub open spec fn report_events(suites: Seq<SuiteModel>, failures: Seq<FailureModel>) -> Seq<
    EventModel,
> {
    seq![EventModel::RootStart { tests: sat_usize(total_cases(suites)) }] + suites_events(
        suites,
        failures,
    ) + seq![EventModel::ElementEnd]
}

/// The root element's aggregate count equals the sum over the suites of
/// their case counts, whenever that sum is representable.
pub proof fn lemma_root_tests_total(suites: Seq<SuiteModel>, failures: Seq<FailureModel>)
    requires
        total_cases(suites) <= usize::MAX,
    ensures
        report_events(suites, failures)[0] == (EventModel::RootStart {
            tests: total_cases(suites) as usize,
        }),
{
    let root = seq![EventModel::RootStart { tests: sat_usize(total_cases(suites)) }];
    assert(report_events(suites, failures)[0] == root[0]);
}

/// Each output block of a failure yields exactly one failure-detail
/// event, in the blocks' original order.
pub proof fn lemma_outputs_events_pointwise(outs: Seq<OutputModel>)
    ensures
        outputs_events(outs).len() == outs.len(),
        forall|i: int|
            0 <= i < outs.len() ==> outputs_events(outs)[i] == (EventModel::FailureDetail {
                message: outs[i].data,
                kind: outs[i].kind,
            }),
    decreases outs.len(),
{
    if outs.len() > 0 {
        lemma_outputs_events_pointwise(outs.drop_last());
    }
}

/// With no failure of the collection carrying the identifier, no
/// failure-detail events arise for it.
pub proof fn lemma_no_match_no_details(cid: Seq<char>, failures: Seq<FailureModel>)
    requires
        forall|j: int| 0 <= j < failures.len() ==> failures[j].id != cid,
    ensures
        failure_events(cid, failures) == Seq::<EventModel>::empty(),
    decreases failures.len(),
{
    if failures.len() > 0 {
        lemma_no_match_no_details(cid, failures.drop_last());
        assert(failure_events(cid, failures) =~= Seq::<EventModel>::empty());
    }
}

/// When exactly one failure of the collection carries the identifier,
/// the identifier's failure detail is exactly that failure's outputs'
/// events, in their original order.
pub proof fn lemma_single_match_details(cid: Seq<char>, failures: Seq<FailureModel>, k: int)
    requires
        0 <= k < failures.len(),
        failures[k].id == cid,
        forall|j: int| 0 <= j < failures.len() && j != k ==> failures[j].id != cid,
    ensures
        failure_events(cid, failures) == outputs_events(failures[k].outputs),
    decreases failures.len(),
{
    if k == failures.len() - 1 {
        lemma_no_match_no_details(cid, failures.drop_last());
        assert(failure_events(cid, failures) =~= outputs_events(failures[k].outputs));
    } else {
        lemma_single_match_details(cid, failures.drop_last(), k);
        assert(failure_events(cid, failures) =~= outputs_events(failures[k].outputs));
    }
}

/// A failed case's element holds, between its start and end events,
/// exactly the failure detail joined for its identifier over the whole
/// failures collection.
pub proof fn lemma_failed_case_details(c: CaseModel, failures: Seq<FailureModel>)
    requires
        c.outcome == TestOutcome::Failed,
    ensures
        case_events(c, failures) == seq![EventModel::CaseStart { id: c.id }] + failure_events(
            c.id,
            failures,
        ) + seq![EventModel::ElementEnd],
{
}

/// A case whose outcome is not `Failed` never carries failure-detail
/// events, even when a matching failure exists in the collection.
pub proof fn lemma_unfailed_case_no_detail(c: CaseModel, failures: Seq<FailureModel>)
    requires
        c.outcome != TestOutcome::Failed,
    ensures
        case_events(c, failures) == seq![
            EventModel::CaseStart { id: c.id },
            EventModel::ElementEnd,
        ],
        forall|i: int|
            0 <= i < case_events(c, failures).len() ==> !(case_events(c, failures)[i]
                is FailureDetail),
{
    assert(case_events(c, failures) =~= seq![
        EventModel::CaseStart { id: c.id },
        EventModel::ElementEnd,
    ]);
}

/// Counts the cases over all suites, clamped to `usize`.
fn count_cases(suites: &Vec<TestSuite>) -> (r: usize)
    ensures
        r == sat_usize(total_cases(suites@.map_values(|s: TestSuite| s@))),
{
    let ghost gs = suites@.map_values(|s: TestSuite| s@);
    let mut total: usize = 0;
    let mut i: usize = 0;
    proof {
        assert(gs.take(0) =~= Seq::<SuiteModel>::empty());
    }
    while i < suites.len()
        invariant
            i <= suites.len(),
            gs == suites@.map_values(|s: TestSuite| s@),
            gs.len() == suites@.len(),
            total == sat_usize(total_cases(gs.take(i as int))),
        decreases suites.len() - i,
    {
        let c = suites[i].cases.len();
        proof {
            assert(gs.take(i + 1).drop_last() =~= gs.take(i as int));
            assert(gs.take(i + 1).last() == gs[i as int]);
            assert(gs[i as int].cases.len() == c);
        }
        if total <= usize::MAX - c {
            total = total + c;
        } else {
            total = usize::MAX;
        }
        i += 1;
    }
    proof {
        assert(gs.take(gs.len() as int) =~= gs);
    }
    total
}

/// Walks the suites and cases and emits the report's ordered event
/// sequence, as `report_events` describes.
pub fn junit_events(suites: &Vec<TestSuite>, failures: &Vec<TestFailure>) -> (r: Vec<ReportEvent>)
    ensures
        r@.map_values(|e: ReportEvent| e@) == report_events(
            suites@.map_values(|s: TestSuite| s@),
            failures@.map_values(|f: TestFailure| f@),
        ),
{
    let ghost gs = suites@.map_values(|s: TestSuite| s@);
    let ghost gf = failures@.map_values(|f: TestFailure| f@);
    let mut events: Vec<ReportEvent> = Vec::new();
    let total = count_cases(suites);
    events.push(ReportEvent::RootStart { tests: total });
    let ghost root = seq![EventModel::RootStart { tests: sat_usize(total_cases(gs)) }];
    proof {
        assert(gs.take(0) =~= Seq::<SuiteModel>::empty());
        assert(events@.map_values(|e: ReportEvent| e@) =~= root + suites_events(
            gs.take(0),
            gf,
        ));
    }
    let mut si: usize = 0;
    while si < suites.len()
        invariant
            si <= suites.len(),
            gs == suites@.map_values(|s: TestSuite| s@),
            gf == failures@.map_values(|f: TestFailure| f@),
            gs.len() == suites@.len(),
            gf.len() == failures@.len(),
            root == seq![EventModel::RootStart { tests: sat_usize(total_cases(gs)) }],
            events@.map_values(|e: ReportEvent| e@) == root + suites_events(
                gs.take(si as int),
                gf,
            ),
        decreases suites.len() - si,
    {
        let suite = &suites[si];
        let ghost sm = gs[si as int];
        let ghost base1 = root + suites_events(gs.take(si as int), gf);
        events.push(
            ReportEvent::SuiteStart {
                id: suite.id.clone(),
                tests: suite.cases.len(),
                duration_millis: suite.duration_millis,
            },
        );
        let ghost shead = seq![
            EventModel::SuiteStart {
                id: sm.id,
                tests: sat_usize(sm.cases.len()),
                duration_millis: sm.duration_millis,
            },
        ];
        proof {
            assert(sm.cases.len() == suite.cases@.len());
            assert(sm.cases.take(0) =~= Seq::<CaseModel>::empty());
            assert(events@.map_values(|e: ReportEvent| e@) =~= base1 + shead + cases_events(
                sm.cases.take(0),
                gf,
            ));
        }
        let mut ci: usize = 0;
        while ci < suite.cases.len()
            invariant
                ci <= suite.cases.len(),
                gf == failures@.map_values(|f: TestFailure| f@),
                gf.len() == failures@.len(),
                sm == suite@,
                sm.cases.len() == suite.cases@.len(),
                events@.map_values(|e: ReportEvent| e@) == base1 + shead + cases_events(
                    sm.cases.take(ci as int),
                    gf,
                ),
            decreases suite.cases.len() - ci,
        {
            let tcase = &suite.cases[ci];
            let ghost cm = sm.cases[ci as int];
            let ghost base2 = base1 + shead + cases_events(sm.cases.take(ci as int), gf);
            proof {
                assert(cm == tcase@);
            }
            events.push(ReportEvent::CaseStart { id: tcase.id.clone() });
            let ghost chead = seq![EventModel::CaseStart { id: cm.id }];
            proof {
                assert(events@.map_values(|e: ReportEvent| e@) =~= base2 + chead);
            }
            let ghost y = if cm.outcome == TestOutcome::Failed {
                failure_events(cm.id, gf)
            } else {
                Seq::<EventModel>::empty()
            };
            if tcase.outcome == TestOutcome::Failed {
                proof {
                    assert(gf.take(0) =~= Seq::<FailureModel>::empty());
                    assert(events@.map_values(|e: ReportEvent| e@) =~= base2 + chead
                        + failure_events(cm.id, gf.take(0)));
                }
                let mut fi: usize = 0;
                while fi < failures.len()
                    invariant
                        fi <= failures.len(),
                        gf == failures@.map_values(|f: TestFailure| f@),
                        gf.len() == failures@.len(),
                        cm == tcase@,
                        events@.map_values(|e: ReportEvent| e@) == base2 + chead
                            + failure_events(cm.id, gf.take(fi as int)),
                    decreases failures.len() - fi,
                {
                    let failure = &failures[fi];
                    let ghost fm = gf[fi as int];
                    proof {
                        assert(fm == failure@);
                        assert(gf.take(fi + 1).drop_last() =~= gf.take(fi as int));
                        assert(gf.take(fi + 1).last() == fm);
                    }
                    if str_eq(failure.id.as_str(), tcase.id.as_str()) {
                        let ghost base3 = base2 + chead + failure_events(cm.id, gf.take(fi as int));
                        let ghost fouts = fm.outputs;
                        proof {
                            assert(fouts.take(0) =~= Seq::<OutputModel>::empty());
                            assert(events@.map_values(|e: ReportEvent| e@) =~= base3
                                + outputs_events(fouts.take(0)));
                        }
                        let mut oi: usize = 0;
                        while oi < failure.outputs.len()
                            invariant
                                oi <= failure.outputs.len(),
                                fm == failure@,
                                fouts == fm.outputs,
                                fouts.len() == failure.outputs@.len(),
                                events@.map_values(|e: ReportEvent| e@) == base3 + outputs_events(
                                    fouts.take(oi as int),
                                ),
                            decreases failure.outputs.len() - oi,
                        {
                            let output = &failure.outputs[oi];
                            proof {
                                assert(fouts[oi as int] == output@);
                                assert(fouts.take(oi + 1).drop_last() =~= fouts.take(oi as int));
                                assert(fouts.take(oi + 1).last() == fouts[oi as int]);
                            }
                            events.push(
                                ReportEvent::FailureDetail {
                                    message: output.data.clone(),
                                    kind: output.kind,
                                },
                            );
                            oi += 1;
                            proof {
                                let x = EventModel::FailureDetail {
                                    message: fouts[oi - 1].data,
                                    kind: fouts[oi - 1].kind,
                                };
                                assert(outputs_events(fouts.take(oi as int)) == outputs_events(
                                    fouts.take(oi - 1),
                                ).push(x));
                                assert(events@.map_values(|e: ReportEvent| e@) =~~= (base3
                                    + outputs_events(fouts.take(oi - 1))).push(x));
                                assert((base3 + outputs_events(fouts.take(oi - 1))).push(x)
                                    =~~= base3 + outputs_events(fouts.take(oi - 1)).push(x));
                                assert(events@.map_values(|e: ReportEvent| e@) =~~= base3
                                    + outputs_events(fouts.take(oi as int)));
                            }
                        }
                        proof {
                            assert(fouts.take(fouts.len() as int) =~= fouts);
                            assert(events@.map_values(|e: ReportEvent| e@) =~= base2 + chead
                                + failure_events(cm.id, gf.take(fi + 1)));
                        }
                    } else {
                        proof {
                            assert(failure_events(cm.id, gf.take(fi + 1)) =~= failure_events(
                                cm.id,
                                gf.take(fi as int),
                            ));
                        }
                    }
                    fi += 1;
                }
                proof {
                    assert(gf.take(gf.len() as int) =~= gf);
                    assert(events@.map_values(|e: ReportEvent| e@) =~= base2 + chead
                        + failure_events(cm.id, gf));
                }
            } else {
                proof {
                    assert(events@.map_values(|e: ReportEvent| e@) =~~= base2 + chead + y);
                }
            }
            events.push(ReportEvent::ElementEnd);
            ci += 1;
            proof {
                let endev = seq![EventModel::ElementEnd];
                assert(events@.map_values(|e: ReportEvent| e@) =~~= ((base2 + chead) + y).push(
                    EventModel::ElementEnd,
                ));
                assert(((base2 + chead) + y).push(EventModel::ElementEnd) =~~= base2 + (chead + y
                    + endev));
                assert(chead + y + endev == case_events(cm, gf));
                assert(sm.cases.take(ci as int).drop_last() =~= sm.cases.take(ci - 1));
                assert(sm.cases.take(ci as int).last() == cm);
                assert(cases_events(sm.cases.take(ci as int), gf) == cases_events(
                    sm.cases.take(ci - 1),
                    gf,
                ) + case_events(cm, gf));
                assert(events@.map_values(|e: ReportEvent| e@) =~~= (base1 + shead) + (cases_events(
                    sm.cases.take(ci - 1),
                    gf,
                ) + case_events(cm, gf)));
            }
        }
        proof {
            assert(sm.cases.take(sm.cases.len() as int) =~= sm.cases);
            assert(events@.map_values(|e: ReportEvent| e@) =~~= (base1 + shead) + cases_events(
                sm.cases,
                gf,
            ));
        }
        events.push(ReportEvent::ElementEnd);
        si += 1;
        proof {
            let endev = seq![EventModel::ElementEnd];
            assert(events@.map_values(|e: ReportEvent| e@) =~~= ((base1 + shead) + cases_events(
                sm.cases,
                gf,
            )).push(EventModel::ElementEnd));
            assert(((base1 + shead) + cases_events(sm.cases, gf)).push(EventModel::ElementEnd)
                =~~= base1 + (shead + cases_events(sm.cases, gf) + endev));
            assert(shead + cases_events(sm.cases, gf) + endev == suite_events(sm, gf));
            assert(gs.take(si as int).drop_last() =~= gs.take(si - 1));
            assert(gs.take(si as int).last() == sm);
            assert(suites_events(gs.take(si as int), gf) == suites_events(gs.take(si - 1), gf)
                + suite_events(sm, gf));
            assert(events@.map_values(|e: ReportEvent| e@) =~~= root + (suites_events(
                gs.take(si - 1),
                gf,
            ) + suite_events(sm, gf)));
        }
    }
    proof {
        assert(gs.take(gs.len() as int) =~= gs);
    }
    events.push(ReportEvent::ElementEnd);
    proof {
        let endev = seq![EventModel::ElementEnd];
        assert(events@.map_values(|e: ReportEvent| e@) =~~= (root + suites_events(gs, gf)).push(
            EventModel::ElementEnd,
        ));
        assert((root + suites_events(gs, gf)).push(EventModel::ElementEnd) =~~= root
            + suites_events(gs, gf) + endev);
        assert(events@.map_values(|e: ReportEvent| e@) =~= report_events(gs, gf));
    }
    events
}

} // verus!
