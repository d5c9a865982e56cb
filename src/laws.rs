//! Laws that relate compiling and matching.
use vstd::prelude::*;

use crate::matching::{match_from, match_spec, star_from};
use crate::pattern::{Elem, Pattern};
use crate::syntax::{compile_spec, is_special_byte, literal_end, parse_from};

verus! {

/// Compiling the same pattern text twice gives the same elements, so the two
/// patterns give the same outcome on every input.
pub proof fn compile_is_deterministic(rx: Seq<u8>, p1: Pattern, p2: Pattern, s: Seq<u8>)
    requires
        compile_spec(rx) == Some(p1@),
        compile_spec(rx) == Some(p2@),
    ensures
        p1@ == p2@,
        match_spec(p1@, s) == match_spec(p2@, s),
{
}

proof fn lemma_literal_end_of_plain(rx: Seq<u8>, i: int)
    requires
        0 <= i <= rx.len(),
        forall|j: int| 0 <= j < rx.len() ==> !is_special_byte(#[trigger] rx[j]),
    ensures
        literal_end(rx, i) == rx.len(),
    decreases rx.len() - i,
{
    if i < rx.len() {
        lemma_literal_end_of_plain(rx, i + 1);
    }
}

/// A pattern made of ordinary bytes only compiles, and matches an input
/// exactly when the input is equal to it; such a match captures nothing.
pub proof fn plain_pattern_matches_itself_only(rx: Seq<u8>, s: Seq<u8>)
    requires
        forall|j: int| 0 <= j < rx.len() ==> !is_special_byte(#[trigger] rx[j]),
    ensures
        compile_spec(rx) is Some,
        match_spec(compile_spec(rx).unwrap(), s) is Some <==> s == rx,
        s == rx ==> match_spec(compile_spec(rx).unwrap(), s) == Some(Seq::<Seq<u8>>::empty()),
{
    if rx.len() == 0 {
        empty_pattern_matches_empty_input_only(s);
        assert(rx =~= Seq::<u8>::empty());
        if s.len() == 0 {
            assert(s =~= rx);
        }
    } else {
        lemma_literal_end_of_plain(rx, 1);
        assert(!is_special_byte(rx[0]));
        assert(parse_from(rx, rx.len() as int) == Some(Seq::<Elem>::empty()));
        assert(rx.subrange(0, rx.len() as int) =~= rx);
        let p = seq![Elem::Lit(rx)];
        assert(seq![Elem::Lit(rx)] + Seq::<Elem>::empty() =~= p);
        assert(compile_spec(rx) == Some(p));
        let n = rx.len() as int;
        if n <= s.len() {
            assert(match_from(p, s, n, 1) is Some <==> n == s.len());
        }
        if s == rx {
            assert(s.subrange(0, n) =~= rx);
            assert(match_from(p, s, n, 1) == Some(Seq::<Seq<u8>>::empty()));
        }
        if match_spec(p, s) is Some {
            assert(n <= s.len());
            assert(s.len() == n);
            assert(s =~= s.subrange(0, n));
        }
    }
}

/// The empty pattern compiles to no elements and matches the empty input
/// only, with no captures.
pub proof fn empty_pattern_matches_empty_input_only(s: Seq<u8>)
    ensures
        compile_spec(Seq::empty()) == Some(Seq::<Elem>::empty()),
        match_spec(Seq::empty(), s) is Some <==> s.len() == 0,
        s.len() == 0 ==> match_spec(Seq::empty(), s) == Some(Seq::<Seq<u8>>::empty()),
{
}

/// How many elements of `p` from index `k` on capture: all but the literals.
pub open spec fn capturing_from(p: Seq<Elem>, k: int) -> nat
    decreases p.len() - k,
{
    if k < 0 || k >= p.len() {
        0
    } else {
        (if p[k] is Lit { 0nat } else { 1nat }) + capturing_from(p, k + 1)
    }
}

proof fn lemma_match_from_captures(p: Seq<Elem>, s: Seq<u8>, pos: int, k: int)
    ensures
        match_from(p, s, pos, k) matches Some(c) ==> c.len() == capturing_from(p, k),
    decreases p.len() - k, s.len() + 2 - pos,
{
    if 0 <= pos <= s.len() && 0 <= k < p.len() {
        match p[k] {
            Elem::Lit(v) => {
                if pos + v.len() <= s.len() {
                    lemma_match_from_captures(p, s, pos + v.len(), k + 1);
                }
            },
            Elem::AnyRun => {
                lemma_star_from_captures(p, s, pos, pos, k);
            },
            _ => {
                if pos < s.len() {
                    lemma_match_from_captures(p, s, pos + 1, k + 1);
                }
            },
        }
    }
}

proof fn lemma_star_from_captures(p: Seq<Elem>, s: Seq<u8>, start: int, q: int, k: int)
    requires
        0 <= k < p.len(),
        p[k] is AnyRun,
    ensures
        star_from(p, s, start, q, k) matches Some(c) ==> c.len() == capturing_from(p, k),
    decreases p.len() - k, s.len() + 1 - q,
{
    if 0 <= q <= s.len() {
        lemma_match_from_captures(p, s, q, k + 1);
        lemma_star_from_captures(p, s, start, q + 1, k);
    }
}

/// A match gives exactly one capture for each element of the pattern that is
/// not a literal.
pub proof fn captures_one_per_capturing_element(p: Seq<Elem>, s: Seq<u8>)
    ensures
        match_spec(p, s) matches Some(c) ==> c.len() == capturing_from(p, 0),
{
    lemma_match_from_captures(p, s, 0, 0);
}

} // verus!
