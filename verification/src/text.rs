//! Character-level operations on string slices.
use vstd::prelude::*;
use vstd::string::*;

use crate::path_spec::{is_sep, last_sep_index, lemma_last_sep_index, lemma_sep_index, sep_index};

verus! {

/// Number of characters of `s`.
pub fn char_len(s: &str) -> (n: usize)
    ensures
        n == s@.len(),
{
    s.unicode_len()
}

/// Whether two string slices hold the same characters.
pub fn str_eq(a: &str, b: &str) -> (r: bool)
    ensures
        r == (a@ == b@),
{
    let n = a.unicode_len();
    let m = b.unicode_len();
    if n != m {
        return false;
    }
    let mut i: usize = 0;
    while i < n
        invariant
            n == a@.len(),
            m == b@.len(),
            n == m,
            i <= n,
            forall|k: int| 0 <= k < i ==> a@[k] == b@[k],
        decreases n - i,
    {
        if a.get_char(i) != b.get_char(i) {
            return false;
        }
        i = i + 1;
    }
    assert(a@ =~= b@);
    true
}

/// Index of the first separator in `s[from..to]` (relative to `from`),
/// or `to - from` if there is none.
pub fn first_sep(s: &str, from: usize, to: usize) -> (i: usize)
    requires
        from <= to <= s@.len(),
    ensures
        i == sep_index(s@.subrange(from as int, to as int)),
{
    let ghost t = s@.subrange(from as int, to as int);
    proof {
        lemma_sep_index(t);
    }
    let mut i: usize = from;
    while i < to
        invariant
            from <= i <= to <= s@.len(),
            t == s@.subrange(from as int, to as int),
            forall|k: int| from <= k < i ==> !is_sep(#[trigger] s@[k]),
            0 <= sep_index(t) <= t.len(),
            forall|k: int| 0 <= k < sep_index(t) ==> !is_sep(#[trigger] t[k]),
            sep_index(t) < t.len() ==> is_sep(t[sep_index(t)]),
        decreases to - i,
    {
        if s.get_char(i) == '/' {
            // `i - from` is the first separator of `t`
            proof {
                if sep_index(t) < i - from {
                    assert(t[sep_index(t)] == s@[from + sep_index(t)]);
                }
                assert(t[i - from] == s@[i as int]);
            }
            return i - from;
        }
        i = i + 1;
    }
    proof {
        if sep_index(t) < t.len() {
            assert(t[sep_index(t)] == s@[from + sep_index(t)]);
        }
    }
    to - from
}

/// Index of the last separator in `s[from..to]` (relative to `from`), if any.
pub fn last_sep(s: &str, from: usize, to: usize) -> (r: Option<usize>)
    requires
        from <= to <= s@.len(),
    ensures
        match r {
            Some(j) => last_sep_index(s@.subrange(from as int, to as int)) == j,
            None => last_sep_index(s@.subrange(from as int, to as int)) < 0,
        },
{
    let ghost t = s@.subrange(from as int, to as int);
    proof {
        lemma_last_sep_index(t);
    }
    let mut i: usize = to;
    while i > from
        invariant
            from <= i <= to <= s@.len(),
            t == s@.subrange(from as int, to as int),
            forall|k: int| i <= k < to ==> !is_sep(#[trigger] s@[k]),
            -1 <= last_sep_index(t) < t.len(),
            forall|k: int| last_sep_index(t) < k < t.len() ==> !is_sep(#[trigger] t[k]),
            last_sep_index(t) >= 0 ==> is_sep(t[last_sep_index(t)]),
        decreases i - from,
    {
        if s.get_char(i - 1) == '/' {
            let j = i - 1 - from;
            proof {
                assert(t[j as int] == s@[i - 1]);
                if last_sep_index(t) > j {
                    assert(t[last_sep_index(t)] == s@[from + last_sep_index(t)]);
                }
            }
            return Some(j);
        }
        i = i - 1;
    }
    proof {
        if last_sep_index(t) >= 0 {
            assert(t[last_sep_index(t)] == s@[from + last_sep_index(t)]);
        }
    }
    None
}

} // verus!
