//! Plain text helpers: finding a colon and searching for a substring.

use vstd::prelude::*;
use vstd::string::StrSliceExecFns;

verus! {

/// The position of the first `':'` in `s` at or after `from`, or `s.len()`
/// when there is none.
pub open spec fn colon_from(s: Seq<char>, from: nat) -> nat
    decreases s.len() - from,
{
    if from >= s.len() {
        s.len()
    } else if s[from as int] == ':' {
        from
    } else {
        colon_from(s, from + 1)
    }
}

/// Finds the first `':'` at or after `from`, as `colon_from` describes.
pub fn find_colon(s: &str, from: usize, len: usize) -> (r: usize)
    requires
        from <= len,
        len == s@.len(),
    ensures
        r == colon_from(s@, from as nat),
        from <= r <= len,
{
    let mut i: usize = from;
    while i < len
        invariant
            from <= i <= len,
            len == s@.len(),
            colon_from(s@, from as nat) == colon_from(s@, i as nat),
        decreases len - i,
    {
        let c = s.get_char(i);
        if c == ':' {
            return i;
        }
        i = i + 1;
    }
    i
}

/// `pat` occurs in `s` starting at position `i`.
pub open spec fn contains_at(s: Seq<char>, pat: Seq<char>, i: int) -> bool {
    &&& 0 <= i
    &&& i + pat.len() <= s.len()
    &&& s.subrange(i, i + pat.len()) == pat
}

/// `pat` occurs somewhere in `s`.
pub open spec fn contains_seq(s: Seq<char>, pat: Seq<char>) -> bool {
    exists|i: int| contains_at(s, pat, i)
}

/// `pat` occurs in `s` at position `i`, as `contains_at` describes.
fn match_at(s: &str, pat: &str, i: usize, n: usize, m: usize) -> (r: bool)
    requires
        n == s@.len(),
        m == pat@.len(),
        i + m <= n,
    ensures
        r == contains_at(s@, pat@, i as int),
{
    let mut k: usize = 0;
    while k < m
        invariant
            n == s@.len(),
            m == pat@.len(),
            i + m <= n,
            k <= m,
            forall|t: int| 0 <= t < k ==> s@[i + t] == pat@[t],
        decreases m - k,
    {
        if s.get_char(i + k) != pat.get_char(k) {
            proof {
                assert(s@.subrange(i as int, i + m) != pat@) by {
                    assert(s@.subrange(i as int, i + m)[k as int] == s@[i + k]);
                }
            }
            return false;
        }
        k = k + 1;
    }
    proof {
        assert(s@.subrange(i as int, i + m) =~= pat@);
    }
    true
}

/// `pat` occurs somewhere in `s`, as `contains_seq` describes.
pub fn contains_pat(s: &str, pat: &str) -> (r: bool)
    ensures
        r == contains_seq(s@, pat@),
{
    let n = s.unicode_len();
    let m = pat.unicode_len();
    if m == 0 {
        proof {
            assert(s@.subrange(0, 0) =~= pat@);
            assert(contains_at(s@, pat@, 0));
        }
        return true;
    }
    if m > n {
        proof {
            assert(forall|i: int| !contains_at(s@, pat@, i));
        }
        return false;
    }
    let mut i: usize = 0;
    while i <= n - m
        invariant
            1 <= m <= n,
            n == s@.len(),
            m == pat@.len(),
            i <= n - m + 1,
            forall|j: int| 0 <= j < i ==> !contains_at(s@, pat@, j),
        decreases n - m + 1 - i,
    {
        if match_at(s, pat, i, n, m) {
            return true;
        }
        i = i + 1;
    }
    proof {
        assert forall|j: int| !contains_at(s@, pat@, j) by {
            if 0 <= j && j + pat@.len() <= s@.len() {
                assert(j < i);
            }
        }
    }
    false
}

} // verus!
