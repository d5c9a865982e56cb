//! Anchored matching of a compiled pattern against a byte string, with one
//! capture per element that is not a literal.
//!
//! The search backtracks over the length of each `*` run, shortest first, and
//! keeps no memo: its cost can grow exponentially with the number of `*`
//! elements. It suits short patterns written by hand, not hostile input.
use vstd::prelude::*;
use vstd::string::StringSliceAdditionalSpecFns;

use crate::charset::char_in_impl;
use crate::pattern::{Elem, Matcher, Pattern};

verus! {

/// `rest` with `cap` put in front of its captures, where it is a match.
pub open spec fn with_capture(cap: Seq<u8>, rest: Option<Seq<Seq<u8>>>) -> Option<Seq<Seq<u8>>> {
    match rest {
        Some(caps) => Some(seq![cap] + caps),
        None => None,
    }
}

/// The outcome of matching the elements of `p` from index `k` on against the
/// bytes of `s` from `pos` to the end: `None` for no match, else the captures
/// in the order of the elements.
pub open spec fn match_from(p: Seq<Elem>, s: Seq<u8>, pos: int, k: int) -> Option<Seq<Seq<u8>>>
    decreases p.len() - k, s.len() + 2 - pos,
{
    if pos < 0 || pos > s.len() {
        None
    } else if k < 0 || k >= p.len() {
        if pos == s.len() {
            Some(Seq::empty())
        } else {
            None
        }
    } else {
        match p[k] {
            Elem::Lit(v) => if pos + v.len() <= s.len() && s.subrange(pos, pos + v.len()) == v {
                match_from(p, s, pos + v.len(), k + 1)
            } else {
                None
            },
            Elem::AnyByte => if pos < s.len() {
                with_capture(s.subrange(pos, pos + 1), match_from(p, s, pos + 1, k + 1))
            } else {
                None
            },
            Elem::InSet(set) => if pos < s.len() && set.contains(s[pos]) {
                with_capture(s.subrange(pos, pos + 1), match_from(p, s, pos + 1, k + 1))
            } else {
                None
            },
            Elem::NotInSet(set) => if pos < s.len() && !set.contains(s[pos]) {
                with_capture(s.subrange(pos, pos + 1), match_from(p, s, pos + 1, k + 1))
            } else {
                None
            },
            Elem::AnyRun => star_from(p, s, pos, pos, k),
        }
    }
}

/// The `*` at index `k`, which starts at `start`, tried with the end of its
/// run at `q`, then at `q + 1`, and so on: the first end at which the rest of
/// the pattern matches the rest of `s` wins.
pub open spec fn star_from(p: Seq<Elem>, s: Seq<u8>, start: int, q: int, k: int) -> Option<
    Seq<Seq<u8>>,
>
    decreases p.len() - k, s.len() + 1 - q,
{
    if k < 0 || k >= p.len() || q < 0 || q > s.len() {
        None
    } else {
        match match_from(p, s, q, k + 1) {
            Some(caps) => Some(seq![s.subrange(start, q)] + caps),
            None => star_from(p, s, start, q + 1, k),
        }
    }
}

/// The outcome of matching all of `s` against the pattern `p`.
pub open spec fn match_spec(p: Seq<Elem>, s: Seq<u8>) -> Option<Seq<Seq<u8>>> {
    match_from(p, s, 0, 0)
}

/// The captures of a successful match.
pub struct CheckResult {
    /// The captures, the last element's first.
    groups: Vec<Vec<u8>>,
}

impl View for CheckResult {
    type V = Seq<Seq<u8>>;

    closed spec fn view(&self) -> Seq<Seq<u8>> {
        Seq::new(self.groups@.len(), |i: int| self.groups@[self.groups@.len() - 1 - i]@)
    }
}

/// The model of a match outcome.
pub open spec fn result_view(r: Option<CheckResult>) -> Option<Seq<Seq<u8>>> {
    match r {
        Some(c) => Some(c@),
        None => None,
    }
}

impl CheckResult {
    /// No captures.
    fn empty() -> (r: CheckResult)
        ensures
            r@ == Seq::<Seq<u8>>::empty(),
    {
        let r = CheckResult { groups: Vec::new() };
        assert(r@ =~= Seq::<Seq<u8>>::empty());
        r
    }

    /// Puts `cap` before the other captures.
    fn push_front(&mut self, cap: Vec<u8>)
        ensures
            final(self)@ == seq![cap@] + old(self)@,
    {
        self.groups.push(cap);
        assert(self@ =~= seq![cap@] + old(self)@);
    }

    /// How many captures there are.
    pub fn group_count(&self) -> (r: usize)
        ensures
            r == self@.len(),
    {
        self.groups.len()
    }

    /// The capture at index `idx`, counted in pattern order.
    pub fn group(&self, idx: usize) -> (r: &Vec<u8>)
        requires
            idx < self@.len(),
        ensures
            r@ == self@[idx as int],
    {
        &self.groups[self.groups.len() - 1 - idx]
    }
}

/// Tells whether `v` stands in `s` from `pos` on.
fn starts_with_at(s: &[u8], pos: usize, v: &[u8]) -> (r: bool)
    requires
        pos <= s@.len(),
    ensures
        r == (pos + v@.len() <= s@.len() && s@.subrange(pos as int, pos + v@.len()) == v@),
{
    let n: usize = s.len();
    if v.len() > n - pos {
        return false;
    }
    let mut i: usize = 0;
    while i < v.len()
        invariant
            pos + v@.len() <= s@.len(),
            s@.len() == n,
            i <= v@.len(),
            forall|j: int| 0 <= j < i ==> s@[pos + j] == v@[j],
        decreases v@.len() - i,
    {
        if s[pos + i] != v[i] {
            assert(s@.subrange(pos as int, pos + v@.len())[i as int] != v@[i as int]);
            return false;
        }
        i += 1;
    }
    assert(s@.subrange(pos as int, pos + v@.len()) =~= v@);
    true
}

impl Pattern {
    /// Matches the whole of `s` against the pattern; on success, gives one
    /// capture per element that is not a literal, in pattern order.
    pub fn check(&self, s: &str) -> (r: Option<CheckResult>)
        ensures
            result_view(r) == match_spec(self@, s.spec_bytes()),
    {
        let input = s.as_bytes();
        self.check_impl(input, 0, 0)
    }

    fn check_impl(&self, s: &[u8], pos: usize, rule_idx: usize) -> (r: Option<CheckResult>)
        requires
            pos <= s@.len(),
            rule_idx <= self@.len(),
        ensures
            result_view(r) == match_from(self@, s@, pos as int, rule_idx as int),
        decreases self@.len() - rule_idx, 1int,
    {
        let n: usize = self.len();
        let len: usize = s.len();
        if rule_idx >= n {
            return if pos == s.len() {
                Some(CheckResult::empty())
            } else {
                None
            };
        }
        match self.matcher(rule_idx) {
            Matcher::Literal(v) => {
                if starts_with_at(s, pos, v.as_slice()) {
                    return self.check_impl(s, pos + v.len(), rule_idx + 1);
                }
            },
            Matcher::AnyChar => {
                if pos < s.len() {
                    return self.check_one_char_impl(s, pos, rule_idx);
                }
            },
            Matcher::CharIn(v) => {
                if pos < s.len() && char_in_impl(v.as_slice(), s[pos]) {
                    return self.check_one_char_impl(s, pos, rule_idx);
                }
            },
            Matcher::CharNotIn(v) => {
                if pos < s.len() && !char_in_impl(v.as_slice(), s[pos]) {
                    return self.check_one_char_impl(s, pos, rule_idx);
                }
            },
            Matcher::AnyString => {
                let mut p: usize = pos;
                loop
                    invariant
                        pos <= p <= s@.len(),
                        len == s@.len(),
                        rule_idx < self@.len(),
                        n == self@.len(),
                        self@[rule_idx as int] == Elem::AnyRun,
                        match_from(self@, s@, pos as int, rule_idx as int) == star_from(
                            self@,
                            s@,
                            pos as int,
                            p as int,
                            rule_idx as int,
                        ),
                    decreases s@.len() - p,
                {
                    let m = self.check_impl(s, p, rule_idx + 1);
                    match m {
                        Some(mut m) => {
                            let cap = vstd::slice::slice_to_vec(
                                vstd::slice::slice_subrange(s, pos, p),
                            );
                            m.push_front(cap);
                            return Some(m);
                        },
                        None => {},
                    }
                    if p == len {
                        assert(star_from(self@, s@, pos as int, p + 1, rule_idx as int) is None);
                        return None;
                    }
                    p = p + 1;
                }
            },
        }
        None
    }

    fn check_one_char_impl(&self, s: &[u8], pos: usize, rule_idx: usize) -> (r: Option<
        CheckResult,
    >)
        requires
            pos < s@.len(),
            rule_idx < self@.len(),
        ensures
            result_view(r) == with_capture(
                s@.subrange(pos as int, pos + 1),
                match_from(self@, s@, pos + 1, rule_idx + 1),
            ),
        decreases self@.len() - rule_idx, 0int,
    {
        let n: usize = self.len();
        let len: usize = s.len();
        let tail = self.check_impl(s, pos + 1, rule_idx + 1);
        match tail {
            Some(mut tail) => {
                tail.push_front(vstd::slice::slice_to_vec(vstd::slice::slice_subrange(s, pos, pos + 1)));
                Some(tail)
            },
            None => None,
        }
    }
}

} // verus!
