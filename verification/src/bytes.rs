//! Searching and comparing byte strings.

use vstd::prelude::*;

verus! {

/// `pat` occurs in `s` at offset `i`.
pub open spec fn occurs_at(s: Seq<u8>, pat: Seq<u8>, i: int) -> bool {
    &&& 0 <= i
    &&& i + pat.len() <= s.len()
    &&& s.subrange(i, i + pat.len()) == pat
}

/// `pat` occurs somewhere in `s`.
pub open spec fn contains(s: Seq<u8>, pat: Seq<u8>) -> bool {
    exists|i: int| occurs_at(s, pat, i)
}

/// The offset of the first occurrence of `pat` in `s` at or after `from`,
/// or `s.len()` where there is none.
pub open spec fn first_occurrence(s: Seq<u8>, pat: Seq<u8>, from: int) -> int
    decreases s.len() - from,
{
    if from >= s.len() {
        s.len() as int
    } else if occurs_at(s, pat, from) {
        from
    } else {
        first_occurrence(s, pat, from + 1)
    }
}

/// `first_occurrence` lies between `from` and the end, nothing occurs before
/// it, and short of the end `pat` occurs at it.
pub proof fn lemma_first_occurrence(s: Seq<u8>, pat: Seq<u8>, from: int)
    requires
        0 <= from <= s.len(),
    ensures
        from <= first_occurrence(s, pat, from) <= s.len(),
        forall|j: int| from <= j < first_occurrence(s, pat, from) ==> !occurs_at(s, pat, j),
        first_occurrence(s, pat, from) < s.len() ==> occurs_at(
            s,
            pat,
            first_occurrence(s, pat, from),
        ),
    decreases s.len() - from,
{
    if from < s.len() && !occurs_at(s, pat, from) {
        lemma_first_occurrence(s, pat, from + 1);
    }
}

/// Whether the two byte strings are equal.
pub fn equal(a: &[u8], b: &[u8]) -> (same: bool)
    ensures
        same == (a@ == b@),
{
    if a.len() != b.len() {
        return false;
    }
    let mut k: usize = 0;
    while k < a.len()
        invariant
            a.len() == b.len(),
            k <= a.len(),
            forall|j: int| 0 <= j < k ==> a@[j] == b@[j],
        decreases a.len() - k,
    {
        if a[k] != b[k] {
            return false;
        }
        k += 1;
    }
    assert(a@ =~= b@);
    true
}

/// Whether `pat` occurs in `s` at offset `i`.
pub fn matches_at(s: &[u8], pat: &[u8], i: usize) -> (found: bool)
    ensures
        found == occurs_at(s@, pat@, i as int),
{
    if pat.len() > s.len() || i > s.len() - pat.len() {
        return false;
    }
    let mut k: usize = 0;
    while k < pat.len()
        invariant
            i + pat.len() <= s.len(),
            k <= pat.len(),
            forall|j: int| 0 <= j < k ==> s@[i + j] == pat@[j],
        decreases pat.len() - k,
    {
        if s[i + k] != pat[k] {
            assert(s@.subrange(i as int, i + pat.len())[k as int] != pat@[k as int]);
            return false;
        }
        k += 1;
    }
    assert(s@.subrange(i as int, i + pat.len()) =~= pat@);
    true
}

/// The offset of the first occurrence of `pat` in `s` at or after `from`,
/// or `s.len()` where there is none.
pub fn find(s: &[u8], pat: &[u8], from: usize) -> (at: usize)
    ensures
        at == first_occurrence(s@, pat@, from as int),
{
    let mut i: usize = from;
    while i < s.len()
        invariant
            first_occurrence(s@, pat@, from as int) == first_occurrence(s@, pat@, i as int),
        decreases s.len() - i,
    {
        if matches_at(s, pat, i) {
            return i;
        }
        i += 1;
    }
    s.len()
}

/// Whether `pat` occurs somewhere in `s`.
pub fn has_substring(s: &[u8], pat: &[u8]) -> (found: bool)
    ensures
        found == contains(s@, pat@),
{
    if pat.len() > s.len() {
        assert forall|i: int| !occurs_at(s@, pat@, i) by {}
        return false;
    }
    let at = find(s, pat, 0);
    proof {
        lemma_first_occurrence(s@, pat@, 0);
    }
    if at < s.len() {
        true
    } else {
        // Only the empty pattern occurs at the very end.
        let last = matches_at(s, pat, at);
        assert(!last ==> forall|i: int| !occurs_at(s@, pat@, i));
        last
    }
}

} // verus!
