//! The line grammar: the five textual forms the passes understand, as
//! spec-level predicates over `Seq<char>` together with executable
//! matchers proved against them.
//!
//! The patterns, each applied to one whole line:
//! - `Doc-tests {label}` (leading spaces allowed): switch the case-kind
//!   context to the labeled doc-test group;
//! - `test {id} ... {token}`: one case record; the identifier runs to the
//!   first ` ... ` separator;
//! - `finished in {float}s` (sought anywhere in the line): flush the
//!   pending case buffer into a suite;
//! - `---- {id} {type} ----`: open a failure block; the type is the part
//!   of the middle after its last space;
//! - the exact line `stderr:`: open a trailing stderr block.

use vstd::prelude::*;
use vstd::string::*;
use crate::text::{
    match_at, matches_at, find_from, str_eq, is_digit, digits_val, digit_run_end,
    lemma_digit_run_end, read_digits, digit_end,
};

verus! {

/// End of the run of spaces beginning at `i`.
pub open spec fn space_run_end(l: Seq<char>, i: int) -> int
    decreases l.len() - i when 0 <= i <= l.len()
{
    if i >= l.len() || l[i] != ' ' {
        i
    } else {
        space_run_end(l, i + 1)
    }
}

/// End of the run of spaces beginning at `i`, as executable code.
fn space_end(s: &str, i: usize) -> (e: usize)
    requires
        i <= s@.len(),
    ensures
        e as int == space_run_end(s@, i as int),
        i <= e <= s@.len(),
    decreases s@.len() - i,
{
    let n = s.unicode_len();
    if i < n {
        let c = s.get_char(i);
        if c == ' ' {
            return space_end(s, i + 1);
        }
    }
    i
}

/// First position at or after `i` where `p` occurs in `l`, or -1.
pub open spec fn first_match(l: Seq<char>, p: Seq<char>, i: int) -> int
    decreases l.len() - i when 0 <= i <= l.len()
{
    if i >= l.len() {
        -1
    } else if match_at(l, p, i) {
        i
    } else {
        first_match(l, p, i + 1)
    }
}

pub proof fn lemma_first_match(l: Seq<char>, p: Seq<char>, i: int)
    requires
        0 <= i <= l.len(),
    ensures
        first_match(l, p, i) == -1 ==> forall|j: int| i <= j < l.len() ==> !match_at(l, p, j),
        first_match(l, p, i) != -1 ==> i <= first_match(l, p, i) < l.len() && match_at(
            l,
            p,
            first_match(l, p, i),
        ) && (forall|j: int| i <= j < first_match(l, p, i) ==> !match_at(l, p, j)),
    decreases l.len() - i,
{
    if i < l.len() && !match_at(l, p, i) {
        lemma_first_match(l, p, i + 1);
    }
}

// ---------------------------------------------------------------------
// `Doc-tests {label}`
// ---------------------------------------------------------------------

/// The line is a doc-test context switch: optional leading spaces, the
/// literal `Doc-tests `, then a non-empty label.
pub open spec fn is_doctest_line(l: Seq<char>) -> bool {
    let i = space_run_end(l, 0);
    i + "Doc-tests "@.len() < l.len() && match_at(l, "Doc-tests "@, i)
}

/// The captured label of a doc-test context line.
pub open spec fn doctest_label(l: Seq<char>) -> Seq<char> {
    let i = space_run_end(l, 0);
    l.subrange(i + "Doc-tests "@.len(), l.len() as int)
}

/// Matches a `Doc-tests {label}` line and captures the label.
pub fn match_doctest(line: &str) -> (r: Option<String>)
    ensures
        r is Some <==> is_doctest_line(line@),
        r matches Some(label) ==> label@ == doctest_label(line@),
{
    let n = line.unicode_len();
    let pat = "Doc-tests ";
    let plen = pat.unicode_len();
    let i = space_end(line, 0);
    if n - i > plen {
        if matches_at(line, pat, i) {
            let label = line.substring_char(i + plen, n).to_owned();
            return Some(label);
        }
    }
    None
}

// ---------------------------------------------------------------------
// `test {id} ... {token}`
// ---------------------------------------------------------------------

/// The line is a case record: the prefix `test `, then an identifier
/// running to the first ` ... ` separator, then an outcome token.
pub open spec fn is_case_line(l: Seq<char>) -> bool {
    match_at(l, "test "@, 0) && first_match(l, " ... "@, "test "@.len() as int) != -1
}

/// Position of the first ` ... ` separator of a case line.
pub open spec fn case_sep(l: Seq<char>) -> int {
    first_match(l, " ... "@, "test "@.len() as int)
}

/// The captured identifier of a case line.
pub open spec fn case_id(l: Seq<char>) -> Seq<char> {
    l.subrange("test "@.len() as int, case_sep(l))
}

/// The captured outcome token of a case line.
pub open spec fn case_token(l: Seq<char>) -> Seq<char> {
    l.subrange(case_sep(l) + " ... "@.len(), l.len() as int)
}

/// Matches a `test {id} ... {token}` line and captures identifier and token.
pub fn match_case(line: &str) -> (r: Option<(String, String)>)
    ensures
        r is Some <==> is_case_line(line@),
        r matches Some(p) ==> p.0@ == case_id(line@) && p.1@ == case_token(line@),
{
    proof {
        reveal_strlit("test ");
        reveal_strlit(" ... ");
    }
    let n = line.unicode_len();
    let pre = "test ";
    let prelen = pre.unicode_len();
    if n < prelen {
        return None;
    }
    if !matches_at(line, pre, 0) {
        return None;
    }
    let sep = " ... ";
    let seplen = sep.unicode_len();
    proof {
        lemma_first_match(line@, sep@, prelen as int);
    }
    match find_from(line, sep, prelen) {
        None => None,
        Some(k) => {
            let id = line.substring_char(prelen, k).to_owned();
            let token = line.substring_char(k + seplen, n).to_owned();
            Some((id, token))
        },
    }
}

// ---------------------------------------------------------------------
// `finished in {float}s`
// ---------------------------------------------------------------------

/// A duration pattern occurs at position `k`: the literal `finished in `,
/// one or more digits, a dot, one or more digits, then `s`.
pub open spec fn is_duration_at(l: Seq<char>, k: int) -> bool {
    &&& match_at(l, "finished in "@, k)
    &&& {
        let a = k + "finished in "@.len();
        let e1 = digit_run_end(l, a);
        &&& e1 > a
        &&& e1 < l.len()
        &&& l[e1] == '.'
        &&& {
            let e2 = digit_run_end(l, e1 + 1);
            &&& e2 > e1 + 1
            &&& e2 < l.len()
            &&& l[e2] == 's'
        }
    }
}

/// Milliseconds denoted by the fraction digits of a duration: the first
/// three fraction digits, scaled; deeper precision is dropped.
pub open spec fn frac_millis(fd: Seq<char>) -> nat {
    if fd.len() >= 3 {
        digits_val(fd.take(3))
    } else if fd.len() == 2 {
        digits_val(fd) * 10
    } else if fd.len() == 1 {
        digits_val(fd) * 100
    } else {
        0
    }
}

/// Value in milliseconds of the duration pattern at `k`; a numeral too
/// large for `u64` degrades to 0 rather than failing the line.
pub open spec fn dur_millis_at(l: Seq<char>, k: int) -> u64 {
    let a = k + "finished in "@.len();
    let e1 = digit_run_end(l, a);
    let e2 = digit_run_end(l, e1 + 1);
    let w = digits_val(l.subrange(a, e1));
    let f = frac_millis(l.subrange(e1 + 1, e2));
    if w * 1000 + f <= u64::MAX {
        (w * 1000 + f) as u64
    } else {
        0
    }
}

/// First position at or after `i` where the duration pattern occurs, or -1.
pub open spec fn first_duration(l: Seq<char>, i: int) -> int
    decreases l.len() - i when 0 <= i <= l.len()
{
    if i >= l.len() {
        -1
    } else if is_duration_at(l, i) {
        i
    } else {
        first_duration(l, i + 1)
    }
}

pub proof fn lemma_first_duration(l: Seq<char>, i: int)
    requires
        0 <= i <= l.len(),
    ensures
        first_duration(l, i) == -1 ==> forall|j: int| i <= j < l.len() ==> !is_duration_at(l, j),
        first_duration(l, i) != -1 ==> i <= first_duration(l, i) < l.len() && is_duration_at(
            l,
            first_duration(l, i),
        ) && (forall|j: int| i <= j < first_duration(l, i) ==> !is_duration_at(l, j)),
    decreases l.len() - i,
{
    if i < l.len() && !is_duration_at(l, i) {
        lemma_first_duration(l, i + 1);
    }
}

/// The line holds a duration pattern somewhere.
pub open spec fn is_duration_line(l: Seq<char>) -> bool {
    first_duration(l, 0) != -1
}

/// Milliseconds of the first duration pattern of the line.
pub open spec fn line_duration_millis(l: Seq<char>) -> u64 {
    dur_millis_at(l, first_duration(l, 0))
}

/// Numeric value of one digit character.
fn digit_value(c: char) -> (d: u64)
    requires
        is_digit(c),
    ensures
        d == crate::text::digit_val(c),
        d <= 9,
{
    (c as u32 - '0' as u32) as u64
}

/// Checks the duration pattern whose literal part starts at `k`, and
/// computes its value in milliseconds.
fn duration_value_at(line: &str, k: usize) -> (r: Option<u64>)
    requires
        match_at(line@, "finished in "@, k as int),
    ensures
        r is Some <==> is_duration_at(line@, k as int),
        r matches Some(v) ==> v == dur_millis_at(line@, k as int),
{
    proof {
        reveal_strlit("finished in ");
    }
    let n = line.unicode_len();
    let plen = "finished in ".unicode_len();
    let a = k + plen;
    let ghost ga = a as int;
    proof {
        lemma_digit_run_end(line@, ga);
    }
    let (e1, wval, wfits) = read_digits(line, a);
    if !(e1 > a) {
        return None;
    }
    if !(e1 < n) {
        return None;
    }
    if line.get_char(e1) != '.' {
        return None;
    }
    proof {
        lemma_digit_run_end(line@, e1 + 1);
    }
    let e2 = digit_end(line, e1 + 1);
    if !(e2 > e1 + 1) {
        return None;
    }
    if !(e2 < n) {
        return None;
    }
    if line.get_char(e2) != 's' {
        return None;
    }
    // fraction: first up to three digits, scaled to milliseconds
    let m = e2 - (e1 + 1);
    let ghost fd = line@.subrange(e1 + 1, e2 as int);
    proof {
        assert(fd.len() == m);
    }
    let f: u64 = if m >= 3 {
        let d1 = digit_value(line.get_char(e1 + 1));
        let d2 = digit_value(line.get_char(e1 + 2));
        let d3 = digit_value(line.get_char(e1 + 3));
        proof {
            reveal_with_fuel(digits_val, 5);
            let t3 = fd.take(3);
            assert(t3.drop_last() =~= fd.take(2));
            assert(t3.drop_last().drop_last() =~= fd.take(1));
            assert(t3.drop_last().drop_last().drop_last() =~= fd.take(0));
            assert(fd.take(0) =~= Seq::<char>::empty());
            assert(d1 * 100 + d2 * 10 + d3 == frac_millis(fd));
        }
        d1 * 100 + d2 * 10 + d3
    } else if m == 2 {
        let d1 = digit_value(line.get_char(e1 + 1));
        let d2 = digit_value(line.get_char(e1 + 2));
        proof {
            reveal_with_fuel(digits_val, 5);
            assert(fd.drop_last() =~= fd.take(1));
            assert(fd.drop_last().drop_last() =~= Seq::<char>::empty());
            assert(d1 * 100 + d2 * 10 == frac_millis(fd));
        }
        d1 * 100 + d2 * 10
    } else {
        let d1 = digit_value(line.get_char(e1 + 1));
        proof {
            reveal_with_fuel(digits_val, 5);
            assert(fd.drop_last() =~= Seq::<char>::empty());
            assert(d1 * 100 == frac_millis(fd));
        }
        d1 * 100
    };
    proof {
        assert(f == frac_millis(fd));
        assert(f <= 999);
    }
    let limit: u64 = u64::MAX / 1000;
    let rest: u64 = u64::MAX % 1000;
    proof {
        let l = line@;
        let kk = k as int;
        let aa = kk + "finished in "@.len();
        let w = digits_val(l.subrange(aa, e1 as int));
        let fs = frac_millis(l.subrange(e1 as int + 1, e2 as int));
        assert(aa == a as int);
        assert(fs == f);
        assert(limit * 1000 + rest == u64::MAX);
        assert(rest < 1000);
        if wfits {
            assert(w == wval);
            if wval < limit || (wval == limit && f <= rest) {
                assert(wval * 1000 + f <= u64::MAX);
                assert(dur_millis_at(l, kk) == wval * 1000 + f);
            } else {
                assert(wval * 1000 + f > u64::MAX);
                assert(dur_millis_at(l, kk) == 0);
            }
        } else {
            assert(w > u64::MAX);
            assert(w * 1000 + fs > u64::MAX);
            assert(dur_millis_at(l, kk) == 0);
        }
    }
    if wfits && (wval < limit || (wval == limit && f <= rest)) {
        Some(wval * 1000 + f)
    } else {
        Some(0)
    }
}

/// Matches a line holding `finished in {float}s` and captures the
/// duration in milliseconds.
pub fn match_duration(line: &str) -> (r: Option<u64>)
    ensures
        r is Some <==> is_duration_line(line@),
        r matches Some(v) ==> v == line_duration_millis(line@),
{
    let n = line.unicode_len();
    let mut pos: usize = 0;
    while pos <= n
        invariant
            n == line@.len(),
            pos <= n + 1,
            forall|j: int| 0 <= j < pos ==> !is_duration_at(line@, j),
        decreases n + 1 - pos,
    {
        let pat = "finished in ";
        proof {
            reveal_strlit("finished in ");
        }
        match find_from(line, pat, pos) {
            None => {
                proof {
                    assert forall|j: int| 0 <= j < line@.len() implies !is_duration_at(
                        line@,
                        j,
                    ) by {
                        if j >= pos && is_duration_at(line@, j) {
                            assert(match_at(line@, pat@, j));
                        }
                    }
                    lemma_first_duration(line@, 0);
                }
                return None;
            },
            Some(k) => {
                proof {
                    assert forall|j: int| 0 <= j < k implies !is_duration_at(line@, j) by {
                        if j >= pos && is_duration_at(line@, j) {
                            assert(match_at(line@, pat@, j));
                        }
                    }
                }
                match duration_value_at(line, k) {
                    Some(v) => {
                        proof {
                            lemma_first_duration(line@, 0);
                            assert(first_duration(line@, 0) == k);
                        }
                        return Some(v);
                    },
                    None => {
                        pos = k + 1;
                    },
                }
            },
        }
    }
    proof {
        lemma_first_duration(line@, 0);
    }
    None
}

// ---------------------------------------------------------------------
// `---- {id} {type} ----`
// ---------------------------------------------------------------------

/// Greatest position in `[lo, hi)` holding a space, or -1.
pub open spec fn last_space_in(l: Seq<char>, lo: int, hi: int) -> int
    decreases hi - lo when lo <= hi
{
    if hi <= lo {
        -1
    } else if l[hi - 1] == ' ' {
        hi - 1
    } else {
        last_space_in(l, lo, hi - 1)
    }
}

pub proof fn lemma_last_space_in(l: Seq<char>, lo: int, hi: int)
    requires
        0 <= lo <= hi <= l.len(),
    ensures
        last_space_in(l, lo, hi) == -1 ==> forall|j: int| lo <= j < hi ==> l[j] != ' ',
        last_space_in(l, lo, hi) != -1 ==> lo <= last_space_in(l, lo, hi) < hi && l[last_space_in(
            l,
            lo,
            hi,
        )] == ' ' && (forall|j: int| last_space_in(l, lo, hi) < j < hi ==> l[j] != ' '),
    decreases hi - lo,
{
    if hi > lo && l[hi - 1] != ' ' {
        lemma_last_space_in(l, lo, hi - 1);
    }
}

/// Greatest space position in `[lo, hi)`, as executable code.
fn last_space(s: &str, lo: usize, hi: usize) -> (r: Option<usize>)
    requires
        lo <= hi <= s@.len(),
    ensures
        r is None <==> last_space_in(s@, lo as int, hi as int) == -1,
        r matches Some(j) ==> j as int == last_space_in(s@, lo as int, hi as int),
    decreases hi - lo,
{
    if hi <= lo {
        None
    } else {
        let c = s.get_char(hi - 1);
        if c == ' ' {
            Some(hi - 1)
        } else {
            last_space(s, lo, hi - 1)
        }
    }
}

/// The line is a failure-block header: `---- `, then an identifier (which
/// may hold spaces), a space, a non-empty type token, and ` ----` at the
/// very end.
pub open spec fn is_header_line(l: Seq<char>) -> bool {
    &&& l.len() >= "---- "@.len() + " ----"@.len()
    &&& match_at(l, "---- "@, 0)
    &&& match_at(l, " ----"@, l.len() - " ----"@.len())
    &&& {
        let ls = last_space_in(l, "---- "@.len() as int, l.len() - " ----"@.len());
        ls != -1 && ls < l.len() - " ----"@.len() - 1
    }
}

/// The captured identifier of a failure-block header.
pub open spec fn header_id(l: Seq<char>) -> Seq<char> {
    l.subrange(
        "---- "@.len() as int,
        last_space_in(l, "---- "@.len() as int, l.len() - " ----"@.len()),
    )
}

/// The captured type token of a failure-block header.
pub open spec fn header_type(l: Seq<char>) -> Seq<char> {
    l.subrange(
        last_space_in(l, "---- "@.len() as int, l.len() - " ----"@.len()) + 1,
        l.len() - " ----"@.len(),
    )
}

/// Matches a `---- {id} {type} ----` header line and captures identifier
/// and type token.
pub fn match_header(line: &str) -> (r: Option<(String, String)>)
    ensures
        r is Some <==> is_header_line(line@),
        r matches Some(p) ==> p.0@ == header_id(line@) && p.1@ == header_type(line@),
{
    proof {
        reveal_strlit("---- ");
        reveal_strlit(" ----");
    }
    let n = line.unicode_len();
    let pre = "---- ";
    let tail = " ----";
    let prelen = pre.unicode_len();
    let taillen = tail.unicode_len();
    if n < prelen + taillen {
        return None;
    }
    if !matches_at(line, pre, 0) {
        return None;
    }
    if !matches_at(line, tail, n - taillen) {
        return None;
    }
    proof {
        lemma_last_space_in(line@, prelen as int, n - taillen);
    }
    match last_space(line, prelen, n - taillen) {
        None => None,
        Some(ls) => {
            if ls < n - taillen - 1 {
                let id = line.substring_char(prelen, ls).to_owned();
                let ty = line.substring_char(ls + 1, n - taillen).to_owned();
                Some((id, ty))
            } else {
                None
            }
        },
    }
}

// ---------------------------------------------------------------------
// `stderr:`
// ---------------------------------------------------------------------

/// The line is exactly the trailing-stderr marker.
pub open spec fn is_stderr_line(l: Seq<char>) -> bool {
    l == "stderr:"@
}

/// Whether the line is exactly `stderr:`.
pub fn match_stderr(line: &str) -> (r: bool)
    ensures
        r == is_stderr_line(line@),
{
    str_eq(line, "stderr:")
}

} // verus!
