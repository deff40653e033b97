//! Small verified text utilities shared across the crate.

use vstd::prelude::*;

verus! {

/// Character-wise string equality: `r` holds exactly when the two views are
/// the same character sequence.
pub fn str_eq(a: &str, b: &str) -> (r: bool)
    ensures
        r == (a@ == b@),
{
    let alen = a.unicode_len();
    let blen = b.unicode_len();
    if alen != blen {
        return false;
    }
    let mut i: usize = 0;
    while i < alen
        invariant
            0 <= i <= alen,
            alen == a@.len(),
            alen == b@.len(),
            forall|j: int| 0 <= j < i ==> a@[j] == b@[j],
        decreases alen - i,
    {
        if a.get_char(i) != b.get_char(i) {
            return false;
        }
        i = i + 1;
    }
    proof {
        assert(a@ =~= b@);
    }
    true
}

/// The pattern occurs in `s` at position `i`.
pub open spec fn occurs_at(s: Seq<char>, pat: Seq<char>, i: int) -> bool {
    &&& 0 <= i
    &&& i + pat.len() <= s.len()
    &&& s.subrange(i, i + pat.len() as int) == pat
}

/// The pattern occurs somewhere in `s`.
pub open spec fn has_occurrence(s: Seq<char>, pat: Seq<char>) -> bool {
    exists|i: int| occurs_at(s, pat, i)
}

/// Position `i` is the first occurrence of the pattern in `s`.
pub open spec fn is_first_occurrence(s: Seq<char>, pat: Seq<char>, i: int) -> bool {
    &&& occurs_at(s, pat, i)
    &&& forall|j: int| 0 <= j < i ==> !occurs_at(s, pat, j)
}

/// The position of the first occurrence of the pattern in `s`; meaningful
/// only where one occurs.
pub open spec fn first_occurrence(s: Seq<char>, pat: Seq<char>) -> int {
    choose|i: int| is_first_occurrence(s, pat, i)
}

/// A first occurrence is unique, and where the pattern occurs at all there
/// is one, so [`first_occurrence`] then denotes it.
pub proof fn lemma_first_occurrence(s: Seq<char>, pat: Seq<char>, i: int)
    requires
        is_first_occurrence(s, pat, i),
    ensures
        first_occurrence(s, pat) == i,
{
    let w = first_occurrence(s, pat);
    assert(is_first_occurrence(s, pat, w)) by {
        assert(is_first_occurrence(s, pat, i));
    }
    if w < i {
        assert(occurs_at(s, pat, w));
    } else if i < w {
        assert(occurs_at(s, pat, i));
    }
}

/// Find the first occurrence of `pat` in `s`, character-wise.
pub fn find_sub(s: &str, pat: &str) -> (r: Option<usize>)
    ensures
        match r {
            Some(i) => is_first_occurrence(s@, pat@, i as int),
            None => !has_occurrence(s@, pat@),
        },
{
    let slen = s.unicode_len();
    let plen = pat.unicode_len();
    if plen > slen {
        proof {
            assert forall|i: int| !occurs_at(s@, pat@, i) by {}
        }
        return None;
    }
    if plen == 0 {
        proof {
            assert(s@.subrange(0, 0) =~= pat@);
            assert(occurs_at(s@, pat@, 0));
        }
        return Some(0);
    }
    let mut i: usize = 0;
    while i <= slen - plen
        invariant
            0 <= i <= slen - plen + 1,
            0 < plen <= slen,
            slen == s@.len(),
            plen == pat@.len(),
            forall|j: int| 0 <= j < i ==> !occurs_at(s@, pat@, j),
        decreases slen - plen + 1 - i,
    {
        let seg = s.substring_char(i, i + plen);
        if str_eq(seg, pat) {
            proof {
                assert(occurs_at(s@, pat@, i as int));
            }
            return Some(i);
        }
        proof {
            assert(!occurs_at(s@, pat@, i as int));
        }
        i = i + 1;
    }
    proof {
        assert forall|j: int| !occurs_at(s@, pat@, j) by {
            if 0 <= j <= slen - plen {
                assert(!occurs_at(s@, pat@, j));
            }
        }
    }
    None
}

} // verus!
