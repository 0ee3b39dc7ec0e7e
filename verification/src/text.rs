//! Small verified utilities over `&str` and `Seq<char>`: equality,
//! substring matching and search, and decimal digit runs.

use vstd::prelude::*;
use vstd::string::*;

verus! {

/// `p` occurs in `l` starting at position `k`.
pub open spec fn match_at(l: Seq<char>, p: Seq<char>, k: int) -> bool {
    0 <= k && k + p.len() <= l.len() && l.subrange(k, k + p.len() as int) == p
}

/// Character-wise equality of two string slices.
pub fn str_eq(a: &str, b: &str) -> (r: bool)
    ensures
        r == (a@ == b@),
{
    let n = a.unicode_len();
    let m = b.unicode_len();
    if n != m {
        return false;
    }
    let mut i: usize = 0;
    while i < n
        invariant
            n == a@.len(),
            n == b@.len(),
            i <= n,
            forall|j: int| 0 <= j < i ==> a@[j] == b@[j],
        decreases n - i,
    {
        if a.get_char(i) != b.get_char(i) {
            return false;
        }
        i += 1;
    }
    proof {
        assert(a@ =~= b@);
    }
    true
}

/// Whether `pat` occurs in `s` at position `k`.
pub fn matches_at(s: &str, pat: &str, k: usize) -> (r: bool)
    requires
        k + pat@.len() <= s@.len(),
    ensures
        r == match_at(s@, pat@, k as int),
{
    let n = s.unicode_len();
    let plen = pat.unicode_len();
    let mut j: usize = 0;
    while j < plen
        invariant
            n == s@.len(),
            plen == pat@.len(),
            k + plen <= n,
            j <= plen,
            forall|t: int| 0 <= t < j ==> s@[k + t] == pat@[t],
        decreases plen - j,
    {
        if s.get_char(k + j) != pat.get_char(j) {
            proof {
                assert(s@.subrange(k as int, k + pat@.len()) != pat@) by {
                    assert(s@.subrange(k as int, k + pat@.len())[j as int] == s@[k + j]);
                }
            }
            return false;
        }
        j += 1;
    }
    proof {
        assert(s@.subrange(k as int, k + pat@.len()) =~= pat@);
    }
    true
}

/// First position at or after `start` where `pat` occurs in `s`, if any.
pub fn find_from(s: &str, pat: &str, start: usize) -> (r: Option<usize>)
    requires
        pat@.len() >= 1,
    ensures
        r matches Some(k) ==> start <= k && match_at(s@, pat@, k as int) && (forall|j: int|
            start <= j < k ==> !match_at(s@, pat@, j)),
        r is None ==> forall|j: int| start <= j ==> !match_at(s@, pat@, j),
{
    let n = s.unicode_len();
    let plen = pat.unicode_len();
    if plen > n || start > n - plen {
        return None;
    }
    let mut k: usize = start;
    while k <= n - plen
        invariant
            n == s@.len(),
            plen == pat@.len(),
            1 <= plen <= n,
            start <= k,
            k <= n - plen + 1,
            forall|j: int| start <= j < k ==> !match_at(s@, pat@, j),
        decreases n - k,
    {
        if matches_at(s, pat, k) {
            return Some(k);
        }
        k += 1;
    }
    None
}

/// A decimal digit.
pub open spec fn is_digit(c: char) -> bool {
    '0' <= c && c <= '9'
}

/// Numeric value of a decimal digit.
pub open spec fn digit_val(c: char) -> nat {
    (c as u32 - '0' as u32) as nat
}

/// Value of a sequence of decimal digits, most significant first.
pub open spec fn digits_val(s: Seq<char>) -> nat
    decreases s.len(),
{
    if s.len() == 0 {
        0
    } else {
        digits_val(s.drop_last()) * 10 + digit_val(s.last())
    }
}

/// End of the run of decimal digits beginning at `i`.
pub open spec fn digit_run_end(l: Seq<char>, i: int) -> int
    decreases l.len() - i when 0 <= i <= l.len()
{
    if i >= l.len() || !is_digit(l[i]) {
        i
    } else {
        digit_run_end(l, i + 1)
    }
}

pub proof fn lemma_digit_run_end(l: Seq<char>, i: int)
    requires
        0 <= i <= l.len(),
    ensures
        i <= digit_run_end(l, i) <= l.len(),
        forall|j: int| i <= j < digit_run_end(l, i) ==> is_digit(l[j]),
        digit_run_end(l, i) < l.len() ==> !is_digit(l[digit_run_end(l, i)]),
    decreases l.len() - i,
{
    if i < l.len() && is_digit(l[i]) {
        lemma_digit_run_end(l, i + 1);
    }
}

/// End of the run of decimal digits beginning at `i`, as executable code.
pub fn digit_end(s: &str, i: usize) -> (e: usize)
    requires
        i <= s@.len(),
    ensures
        e as int == digit_run_end(s@, i as int),
        i <= e <= s@.len(),
    decreases s@.len() - i,
{
    let n = s.unicode_len();
    if i < n {
        let c = s.get_char(i);
        if '0' <= c && c <= '9' {
            return digit_end(s, i + 1);
        }
    }
    i
}

/// Reads the run of digits beginning at `start`; reports where it ended,
/// whether its value fits in `u64`, and the value when it does.
pub fn read_digits(s: &str, start: usize) -> (r: (usize, u64, bool))
    requires
        start <= s@.len(),
    ensures
        r.0 as int == digit_run_end(s@, start as int),
        start <= r.0 <= s@.len(),
        r.2 == (digits_val(s@.subrange(start as int, r.0 as int)) <= u64::MAX),
        r.2 ==> r.1 == digits_val(s@.subrange(start as int, r.0 as int)),
{
    let e = digit_end(s, start);
    proof {
        lemma_digit_run_end(s@, start as int);
        assert(s@.subrange(start as int, start as int) =~= Seq::<char>::empty());
    }
    let mut i: usize = start;
    let mut value: u64 = 0;
    let mut fits: bool = true;
    while i < e
        invariant
            e <= s@.len(),
            start <= i <= e,
            forall|j: int| start <= j < e ==> is_digit(s@[j]),
            fits == (digits_val(s@.subrange(start as int, i as int)) <= u64::MAX),
            fits ==> value == digits_val(s@.subrange(start as int, i as int)),
        decreases e - i,
    {
        let c = s.get_char(i);
        let d: u64 = (c as u32 - '0' as u32) as u64;
        proof {
            assert(s@.subrange(start as int, i + 1).drop_last() =~= s@.subrange(
                start as int,
                i as int,
            ));
            assert(digits_val(s@.subrange(start as int, i + 1)) == digits_val(
                s@.subrange(start as int, i as int),
            ) * 10 + digit_val(s@[i as int]));
        }
        let limit: u64 = u64::MAX / 10;
        if fits && (value < limit || (value == limit && d <= u64::MAX % 10)) {
            value = value * 10 + d;
        } else {
            proof {
                if !fits {
                    // the value was already past u64::MAX; ten times more plus a digit stays past
                    assert(digits_val(s@.subrange(start as int, i + 1)) > u64::MAX);
                }
            }
            fits = false;
            value = 0;
        }
        i += 1;
    }
    (e, value, fits)
}

} // verus!
