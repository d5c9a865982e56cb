//! Membership in a sorted byte set, by binary search.
use vstd::prelude::*;

verus! {

/// The bytes of `s` never decrease from left to right.
pub open spec fn sorted_bytes(s: Seq<u8>) -> bool {
    forall|i: int, j: int| 0 <= i < j < s.len() ==> s[i] <= s[j]
}

/// The bytes of `s` strictly increase from left to right: a sorted set.
pub open spec fn strictly_sorted_bytes(s: Seq<u8>) -> bool {
    forall|i: int, j: int| 0 <= i < j < s.len() ==> s[i] < s[j]
}

/// Tells whether `c` is one of the bytes of the sorted slice `set`.
pub fn char_in_impl(set: &[u8], c: u8) -> (r: bool)
    requires
        sorted_bytes(set@),
    ensures
        r == set@.contains(c),
{
    let mut l: usize = 0;
    let mut r: usize = set.len();

    if set.len() == 0 {
        return false;
    }

    while l + 1 < r
        invariant
            sorted_bytes(set@),
            r <= set@.len(),
            l < r,
            forall|i: int| 0 <= i < l ==> set@[i] < c,
            forall|i: int| r <= i < set@.len() ==> set@[i] > c,
        decreases r - l,
    {
        let m: usize = l + (r - l) / 2;
        if set[m] == c {
            assert(set@[m as int] == c);
            return true;
        }
        if set[m] < c {
            l = m;
        } else {
            r = m;
        }
    }

    let found = set[l] == c;
    proof {
        if !found {
            assert forall|i: int| 0 <= i < set@.len() implies set@[i] != c by {
                if i < l {
                } else if i == l {
                } else {
                }
            }
        } else {
            assert(set@[l as int] == c);
        }
    }
    found
}

} // verus!
