//! `#N` pull-request references in commit subjects.

use vstd::prelude::*;

use crate::text::{all_digits, decimal_value, is_digit, parse_u64_chars};

verus! {

/// An ASCII letter or digit, as `u8::is_ascii_alphanumeric` tests a byte.
pub open spec fn is_ascii_alnum(c: char) -> bool {
    is_digit(c) || ('a' <= c <= 'z') || ('A' <= c <= 'Z')
}

/// The first index at or after `k` that does not hold a digit.
pub open spec fn digit_run_end(s: Seq<char>, k: int) -> int
    decreases s.len() - k,
{
    if 0 <= k < s.len() && is_digit(s[k]) {
        digit_run_end(s, k + 1)
    } else {
        k
    }
}

/// The pull-request number that a `#` at index `p` introduces: the digits
/// right after it, ending at a character that is not an ASCII letter or digit
/// (or at the end), whose value fits in 64 bits.
pub open spec fn pr_ref_at(s: Seq<char>, p: int) -> Option<u64> {
    if 0 <= p < s.len() && s[p] == '#' {
        let end = digit_run_end(s, p + 1);
        let digits = s.subrange(p + 1, end);
        if end > p + 1 && (end >= s.len() || !is_ascii_alnum(s[end])) && decimal_value(digits)
            <= u64::MAX {
            Some(decimal_value(digits) as u64)
        } else {
            None
        }
    } else {
        None
    }
}

/// The references introduced at indices `p` and later, in order.
pub open spec fn pr_refs_from(s: Seq<char>, p: int) -> Seq<u64>
    decreases s.len() - p,
{
    if p < 0 || p >= s.len() {
        Seq::<u64>::empty()
    } else {
        match pr_ref_at(s, p) {
            Some(n) => seq![n] + pr_refs_from(s, p + 1),
            None => pr_refs_from(s, p + 1),
        }
    }
}

/// Every `#N` reference of a subject, in the order they appear.
pub open spec fn pr_refs_spec(s: Seq<char>) -> Seq<u64> {
    pr_refs_from(s, 0)
}

pub proof fn lemma_digit_run_end(s: Seq<char>, k: int, e: int)
    requires
        0 <= k <= e <= s.len(),
        forall|j: int| k <= j < e ==> is_digit(#[trigger] s[j]),
        e == s.len() || !is_digit(s[e]),
    ensures
        digit_run_end(s, k) == e,
    decreases e - k,
{
    if k < e {
        lemma_digit_run_end(s, k + 1, e);
    }
}

/// No reference starts inside a run of digits.
pub proof fn lemma_skip_digits(s: Seq<char>, k: int, e: int)
    requires
        0 <= k <= e <= s.len(),
        forall|j: int| k <= j < e ==> is_digit(#[trigger] s[j]),
    ensures
        pr_refs_from(s, k) == pr_refs_from(s, e),
    decreases e - k,
{
    if k < e {
        assert(is_digit(s[k]));
        lemma_skip_digits(s, k + 1, e);
    }
}

/// Scans for the digits after a `#` at `i`; returns the end of the run and the
/// reference, if there is one.
pub fn scan_ref_at(v: &Vec<char>, i: usize) -> (r: (usize, Option<u64>))
    requires
        i < v.len(),
        v@[i as int] == '#',
    ensures
        i < r.0 <= v.len(),
        r.0 == digit_run_end(v@, i + 1),
        r.1 == pr_ref_at(v@, i as int),
        forall|j: int| i < j < r.0 ==> is_digit(#[trigger] v@[j]),
{
    let len = v.len();
    let start = i + 1;
    let mut end = start;
    while end < len && '0' <= v[end] && v[end] <= '9'
        invariant
            start <= end <= len == v@.len(),
            start == i + 1,
            forall|j: int| start <= j < end ==> is_digit(#[trigger] v@[j]),
        decreases len - end,
    {
        end = end + 1;
    }
    proof {
        lemma_digit_run_end(v@, start as int, end as int);
    }
    let mut found: Option<u64> = None;
    if end > start {
        let boundary = end >= len || !(('0' <= v[end] && v[end] <= '9') || ('a' <= v[end] && v[end]
            <= 'z') || ('A' <= v[end] && v[end] <= 'Z'));
        if boundary {
            let ghost d = v@.subrange(start as int, end as int);
            assert(all_digits(d)) by {
                assert forall|j: int| 0 <= j < d.len() implies is_digit(#[trigger] d[j]) by {
                    assert(d[j] == v@[start + j]);
                }
            }
            assert(d[0] != '+') by {
                assert(d[0] == v@[start as int]);
            }
            found = parse_u64_chars(v, start, end);
        }
    }
    (end, found)
}

} // verus!
