//! The failure extractor: an independent forward pass over the same line
//! sequence, collecting failure records with their verbatim output
//! blocks. Body lines are consumed raw until a blank line and are never
//! re-tested against the header grammar.

use vstd::prelude::*;
use vstd::string::*;
use crate::cases::{
    FailureModel, OutputModel, TestFailure, TestFailures, TestOutput, TestOutputType,
    output_type_of_token,
};
use crate::grammar::{header_id, header_type, is_header_line, is_stderr_line, match_header,
    match_stderr};

verus! {

/// First blank line at or after `i`, or the end of the input.
pub open spec fn blank_end(lines: Seq<Seq<char>>, i: int) -> int
    decreases lines.len() - i when 0 <= i <= lines.len()
{
    if i >= lines.len() || lines[i].len() == 0 {
        i
    } else {
        blank_end(lines, i + 1)
    }
}

pub proof fn lemma_blank_end(lines: Seq<Seq<char>>, i: int)
    requires
        0 <= i <= lines.len(),
    ensures
        i <= blank_end(lines, i) <= lines.len(),
        forall|j: int| i <= j < blank_end(lines, i) ==> lines[j].len() > 0,
        blank_end(lines, i) < lines.len() ==> lines[blank_end(lines, i)].len() == 0,
    decreases lines.len() - i,
{
    if i < lines.len() && lines[i].len() > 0 {
        lemma_blank_end(lines, i + 1);
    }
}

/// Body lines joined with newline separators, verbatim.
pub open spec fn join_nl(body: Seq<Seq<char>>) -> Seq<char>
    decreases body.len(),
{
    if body.len() == 0 {
        Seq::empty()
    } else if body.len() == 1 {
        body[0]
    } else {
        join_nl(body.drop_last()) + seq!['\n'] + body.last()
    }
}

/// The extraction pass from position `i` onward, given the failures
/// already collected. A header line opens a failure; its body runs to
/// the next blank line and becomes one output block, or is discarded
/// when the input ends first (the failure stays, empty-bodied). A bare
/// `stderr:` line collects a body the same way and attaches it to the
/// most recently collected failure; with no failure yet, or with the
/// input ending before a blank line, the block is silently dropped.
pub open spec fn extract_from(
    lines: Seq<Seq<char>>,
    i: int,
    acc: Seq<FailureModel>,
) -> Seq<FailureModel>
    decreases lines.len() - i when 0 <= i <= lines.len() via extract_from_dec
{
    if i >= lines.len() {
        acc
    } else {
        let l = lines[i];
        if is_header_line(l) {
            let e = blank_end(lines, i + 1);
            if e < lines.len() {
                let out = OutputModel {
                    kind: output_type_of_token(header_type(l)),
                    data: join_nl(lines.subrange(i + 1, e)),
                };
                extract_from(
                    lines,
                    e + 1,
                    acc.push(FailureModel { id: header_id(l), outputs: seq![out] }),
                )
            } else {
                extract_from(
                    lines,
                    e,
                    acc.push(FailureModel { id: header_id(l), outputs: Seq::empty() }),
                )
            }
        } else if is_stderr_line(l) {
            let e = blank_end(lines, i + 1);
            if e < lines.len() {
                if acc.len() > 0 {
                    let out = OutputModel {
                        kind: TestOutputType::Stderr,
                        data: join_nl(lines.subrange(i + 1, e)),
                    };
                    let f = acc.last();
                    extract_from(
                        lines,
                        e + 1,
                        acc.update(
                            acc.len() - 1,
                            FailureModel { id: f.id, outputs: f.outputs.push(out) },
                        ),
                    )
                } else {
                    extract_from(lines, e + 1, acc)
                }
            } else {
                extract_from(lines, e, acc)
            }
        } else {
            extract_from(lines, i + 1, acc)
        }
    }
}

#[via_fn]
proof fn extract_from_dec(lines: Seq<Seq<char>>, i: int, acc: Seq<FailureModel>) {
    if 0 <= i && i < lines.len() {
        lemma_blank_end(lines, i + 1);
    }
}

/// The ordered failures produced by extracting from the lines.
pub open spec fn extract_failures(lines: Seq<Seq<char>>) -> Seq<FailureModel> {
    extract_from(lines, 0, Seq::empty())
}

proof fn lemma_no_header_extract_empty(lines: Seq<Seq<char>>, i: int)
    requires
        0 <= i <= lines.len(),
        forall|j: int| 0 <= j < lines.len() ==> !is_header_line(lines[j]),
    ensures
        extract_from(lines, i, Seq::empty()) == Seq::<FailureModel>::empty(),
    decreases lines.len() - i,
{
    if i < lines.len() {
        let l = lines[i];
        if is_stderr_line(l) {
            lemma_blank_end(lines, i + 1);
            let e = blank_end(lines, i + 1);
            if e < lines.len() {
                lemma_no_header_extract_empty(lines, e + 1);
            } else {
                lemma_no_header_extract_empty(lines, e);
            }
        } else {
            lemma_no_header_extract_empty(lines, i + 1);
        }
    }
}

/// A `stderr:` block arriving before any header block yields no failure
/// and no error: with no header line anywhere in the input, extraction
/// produces nothing at all.
pub proof fn lemma_stderr_before_header_dropped(lines: Seq<Seq<char>>)
    requires
        forall|j: int| 0 <= j < lines.len() ==> !is_header_line(lines[j]),
    ensures
        extract_failures(lines) == Seq::<FailureModel>::empty(),
{
    lemma_no_header_extract_empty(lines, 0);
}

/// A header block with no terminating blank line before end-of-input
/// yields a failure record with no output for that block.
pub proof fn lemma_unterminated_header_block(
    lines: Seq<Seq<char>>,
    i: int,
    acc: Seq<FailureModel>,
)
    requires
        0 <= i < lines.len(),
        is_header_line(lines[i]),
        forall|j: int| i < j < lines.len() ==> lines[j].len() > 0,
    ensures
        extract_from(lines, i, acc) == acc.push(
            FailureModel { id: header_id(lines[i]), outputs: Seq::empty() },
        ),
{
    lemma_blank_end(lines, i + 1);
    let e = blank_end(lines, i + 1);
    assert(e == lines.len());
    let f = FailureModel { id: header_id(lines[i]), outputs: Seq::empty() };
    assert(extract_from(lines, e, acc.push(f)) == acc.push(f));
    assert(extract_from(lines, i, acc) == extract_from(lines, e, acc.push(f)));
}

/// First blank line at or after `j`, as executable code.
fn body_end(lines: &Vec<String>, j: usize) -> (e: usize)
    requires
        j <= lines@.len(),
    ensures
        e as int == blank_end(lines@.map_values(|s: String| s@), j as int),
        j <= e <= lines@.len(),
    decreases lines@.len() - j,
{
    if j < lines.len() {
        let line: &str = lines[j].as_str();
        if !line.is_empty() {
            return body_end(lines, j + 1);
        }
    }
    j
}

/// Collects the body lines from `start` to the next blank line (or the
/// end of input), joined with newlines, and reports where the body ended.
fn collect_body(lines: &Vec<String>, start: usize) -> (r: (String, usize))
    requires
        start <= lines@.len(),
    ensures
        r.1 as int == blank_end(lines@.map_values(|s: String| s@), start as int),
        start <= r.1 <= lines@.len(),
        r.0@ == join_nl(
            lines@.map_values(|s: String| s@).subrange(start as int, r.1 as int),
        ),
{
    let ghost gl = lines@.map_values(|s: String| s@);
    let e = body_end(lines, start);
    let mut data = String::new();
    let mut j = start;
    proof {
        assert(gl.subrange(start as int, start as int) =~= Seq::<Seq<char>>::empty());
    }
    while j < e
        invariant
            gl == lines@.map_values(|s: String| s@),
            gl.len() == lines@.len(),
            start <= j <= e,
            e <= lines@.len(),
            data@ == join_nl(gl.subrange(start as int, j as int)),
        decreases e - j,
    {
        if j > start {
            data.append("\n");
        }
        data.append(lines[j].as_str());
        j += 1;
        proof {
            reveal_strlit("\n");
            let body = gl.subrange(start as int, j as int);
            assert(body.drop_last() =~= gl.subrange(start as int, j - 1));
            assert(body.last() == gl[j - 1]);
            if j - start == 1 {
                assert(data@ =~= body[0]);
            } else {
                assert("\n"@ =~= seq!['\n']);
                assert(data@ =~= join_nl(body.drop_last()) + seq!['\n'] + body.last());
            }
        }
    }
    (data, e)
}

impl TestFailures {
    /// Single forward pass over the line sequence producing the ordered
    /// list of failure records, as `extract_failures` describes.
    pub fn from(lines: &Vec<String>) -> (r: Vec<TestFailure>)
        ensures
            r@.map_values(|f: TestFailure| f@) == extract_failures(
                lines@.map_values(|l: String| l@),
            ),
    {
        let ghost gl = lines@.map_values(|l: String| l@);
        let mut failures: Vec<TestFailure> = Vec::new();
        let mut i: usize = 0;
        proof {
            assert(failures@.map_values(|f: TestFailure| f@) =~= Seq::<FailureModel>::empty());
        }
        while i < lines.len()
            invariant
                i <= lines.len(),
                gl == lines@.map_values(|l: String| l@),
                gl.len() == lines@.len(),
                extract_from(gl, i as int, failures@.map_values(|f: TestFailure| f@))
                    == extract_failures(gl),
            decreases lines.len() - i,
        {
            let ghost acc_old = failures@.map_values(|f: TestFailure| f@);
            let line: &str = lines[i].as_str();
            let ghost l = line@;
            proof {
                assert(gl[i as int] == l);
            }
            match match_header(line) {
                Some(captures) => {
                    let (id, ty) = captures;
                    let (data, e) = collect_body(lines, i + 1);
                    if e < lines.len() {
                        let kind = TestOutputType::from(ty.as_str());
                        let mut outputs: Vec<TestOutput> = Vec::new();
                        outputs.push(TestOutput { kind, data });
                        failures.push(TestFailure { id, outputs });
                        proof {
                            let out = OutputModel {
                                kind: output_type_of_token(header_type(l)),
                                data: join_nl(gl.subrange(i + 1, e as int)),
                            };
                            assert(outputs@.map_values(|o: TestOutput| o@) =~= seq![out]);
                            assert(failures@.map_values(|f: TestFailure| f@) =~= acc_old.push(
                                FailureModel { id: header_id(l), outputs: seq![out] },
                            ));
                        }
                        i = e + 1;
                    } else {
                        let outputs: Vec<TestOutput> = Vec::new();
                        failures.push(TestFailure { id, outputs });
                        proof {
                            assert(outputs@.map_values(|o: TestOutput| o@) =~= Seq::<
                                OutputModel,
                            >::empty());
                            assert(failures@.map_values(|f: TestFailure| f@) =~= acc_old.push(
                                FailureModel { id: header_id(l), outputs: Seq::empty() },
                            ));
                        }
                        i = e;
                    }
                },
                None => {
                    if match_stderr(line) {
                        let (data, e) = collect_body(lines, i + 1);
                        if e < lines.len() {
                            if failures.len() > 0 {
                                let mut f = failures.pop().unwrap();
                                f.outputs.push(TestOutput { kind: TestOutputType::Stderr, data });
                                failures.push(f);
                                proof {
                                    let out = OutputModel {
                                        kind: TestOutputType::Stderr,
                                        data: join_nl(gl.subrange(i + 1, e as int)),
                                    };
                                    let old_f = acc_old.last();
                                    assert(f.outputs@.map_values(|o: TestOutput| o@)
                                        =~= old_f.outputs.push(out));
                                    assert(failures@.map_values(|f2: TestFailure| f2@)
                                        =~= acc_old.update(
                                        acc_old.len() - 1,
                                        FailureModel {
                                            id: old_f.id,
                                            outputs: old_f.outputs.push(out),
                                        },
                                    ));
                                }
                            }
                            i = e + 1;
                        } else {
                            i = e;
                        }
                    } else {
                        i = i + 1;
                    }
                },
            }
        }
        failures
    }
}

} // verus!
