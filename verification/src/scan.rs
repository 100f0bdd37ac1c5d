//! Byte-scanning helpers for the sidecar parser: first occurrence of a
//! byte, and first occurrence of a byte pattern, from a given position.

use vstd::prelude::*;

verus! {

/// The first index `>= from` at which `b` occurs in `s`, if any.
pub open spec fn find_byte_from(s: Seq<u8>, b: u8, from: int) -> Option<int>
    decreases s.len() - from,
    when from >= 0
{
    if from < 0 || from >= s.len() {
        None
    } else if s[from] == b {
        Some(from)
    } else {
        find_byte_from(s, b, from + 1)
    }
}

/// Whether `pat` occurs in `s` starting exactly at `at`.
pub open spec fn match_at(s: Seq<u8>, pat: Seq<u8>, at: int) -> bool {
    &&& at >= 0
    &&& at + pat.len() <= s.len()
    &&& s.subrange(at, at + pat.len() as int) == pat
}

/// The first index `>= from` at which `pat` occurs in `s`, if any.
pub open spec fn find_sub_from(s: Seq<u8>, pat: Seq<u8>, from: int) -> Option<int>
    decreases s.len() - from,
    when from >= 0
{
    if from < 0 || from + pat.len() > s.len() {
        None
    } else if match_at(s, pat, from) {
        Some(from)
    } else if from + 1 + pat.len() > s.len() {
        None
    } else {
        find_sub_from(s, pat, from + 1)
    }
}

/// A found byte lies between `from` and the end of `s`.
pub proof fn lemma_find_byte_from_bounds(s: Seq<u8>, b: u8, from: int)
    requires
        from >= 0,
    ensures
        find_byte_from(s, b, from) matches Some(i) ==> from <= i < s.len(),
    decreases s.len() - from,
{
    if from < s.len() && s[from] != b {
        lemma_find_byte_from_bounds(s, b, from + 1);
    }
}

/// A found pattern lies between `from` and the end of `s`, whole.
pub proof fn lemma_find_sub_from_bounds(s: Seq<u8>, pat: Seq<u8>, from: int)
    requires
        from >= 0,
    ensures
        find_sub_from(s, pat, from) matches Some(i) ==> from <= i && i + pat.len() <= s.len(),
    decreases s.len() - from,
{
    if from + pat.len() <= s.len() && !match_at(s, pat, from) && from + 1 + pat.len() <= s.len() {
        lemma_find_sub_from_bounds(s, pat, from + 1);
    }
}

/// Find the first occurrence of `b` in `s` at or after `from`.
pub fn find_byte(s: &Vec<u8>, b: u8, from: usize) -> (r: Option<usize>)
    ensures
        match r {
            Some(i) => find_byte_from(s@, b, from as int) == Some(i as int) && from <= i < s@.len(),
            None => find_byte_from(s@, b, from as int) is None,
        },
{
    let mut i = from;
    while i < s.len()
        invariant
            from <= i,
            find_byte_from(s@, b, from as int) == find_byte_from(s@, b, i as int),
        decreases s@.len() - i,
    {
        if s[i] == b {
            proof {
                lemma_find_byte_from_bounds(s@, b, from as int);
            }
            return Some(i);
        }
        i = i + 1;
    }
    None
}

/// Whether `pat` occurs in `s` starting exactly at `at`.
pub fn match_at_exec(s: &Vec<u8>, pat: &Vec<u8>, at: usize) -> (r: bool)
    ensures
        r == match_at(s@, pat@, at as int),
{
    if at > s.len() || pat.len() > s.len() - at {
        proof {
            assert(at + pat@.len() > s@.len());
        }
        return false;
    }
    let mut k: usize = 0;
    while k < pat.len()
        invariant
            k <= pat@.len(),
            at + pat@.len() <= s@.len(),
            s@.len() <= usize::MAX,
            forall|m: int| 0 <= m < k ==> s@[at + m] == pat@[m],
        decreases pat@.len() - k,
    {
        if s[at + k] != pat[k] {
            proof {
                assert(s@.subrange(at as int, at + pat@.len() as int)[k as int] != pat@[k as int]);
            }
            return false;
        }
        k = k + 1;
    }
    proof {
        assert(s@.subrange(at as int, at + pat@.len() as int) =~= pat@);
    }
    true
}

/// Find the first occurrence of `pat` in `s` at or after `from`.
pub fn find_sub(s: &Vec<u8>, pat: &Vec<u8>, from: usize) -> (r: Option<usize>)
    ensures
        match r {
            Some(i) => find_sub_from(s@, pat@, from as int) == Some(i as int) && from <= i && i
                + pat@.len() <= s@.len(),
            None => find_sub_from(s@, pat@, from as int) is None,
        },
{
    if pat.len() > s.len() {
        return None;
    }
    if pat.len() == 0 {
        if from <= s.len() {
            proof {
                assert(s@.subrange(from as int, from as int) =~= pat@);
            }
            return Some(from);
        }
        return None;
    }
    let mut i = from;
    while i <= s.len() - pat.len()
        invariant
            from <= i,
            1 <= pat@.len() <= s@.len() <= usize::MAX,
            find_sub_from(s@, pat@, from as int) == find_sub_from(s@, pat@, i as int),
        decreases s@.len() - i,
    {
        if match_at_exec(s, pat, i) {
            proof {
                lemma_find_sub_from_bounds(s@, pat@, from as int);
            }
            return Some(i);
        }
        i = i + 1;
    }
    None
}

/// Copy the bytes of `s` from `a` (inclusive) to `b` (exclusive).
pub fn copy_range(s: &Vec<u8>, a: usize, b: usize) -> (r: Vec<u8>)
    requires
        a <= b <= s@.len(),
    ensures
        r@ == s@.subrange(a as int, b as int),
{
    let mut r: Vec<u8> = Vec::new();
    let mut i = a;
    while i < b
        invariant
            a <= i <= b <= s@.len(),
            r@ =~= s@.subrange(a as int, i as int),
        decreases b - i,
    {
        r.push(s[i]);
        proof {
            assert(r@ =~= s@.subrange(a as int, i + 1 as int));
        }
        i = i + 1;
    }
    r
}

/// Whether two byte vectors hold the same bytes.
pub fn bytes_eq(a: &Vec<u8>, b: &Vec<u8>) -> (r: bool)
    ensures
        r == (a@ == b@),
{
    if a.len() != b.len() {
        return false;
    }
    let mut i: usize = 0;
    while i < a.len()
        invariant
            i <= a@.len(),
            a@.len() == b@.len(),
            forall|m: int| 0 <= m < i ==> a@[m] == b@[m],
        decreases a@.len() - i,
    {
        if a[i] != b[i] {
            return false;
        }
        i = i + 1;
    }
    proof {
        assert(a@ =~= b@);
    }
    true
}

} // verus!
