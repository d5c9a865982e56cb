//! Compiled patterns: matcher elements, their mathematical model, and the
//! `Pattern` type that holds a sequence of them.
use vstd::prelude::*;

use crate::charset::strictly_sorted_bytes;

verus! {

/// The model of one matcher element.
pub enum Elem {
    /// An exact run of bytes; captures nothing.
    Lit(Seq<u8>),
    /// Exactly one byte, whatever it is; captured.
    AnyByte,
    /// Exactly one byte that belongs to the set; captured.
    InSet(Set<u8>),
    /// Exactly one byte that does not belong to the set; captured.
    NotInSet(Set<u8>),
    /// Any run of bytes, the shortest that lets the rest match; captured.
    AnyRun,
}

/// One element of a compiled pattern.
pub enum Matcher {
    /// An exact run of bytes.
    Literal(Vec<u8>),
    /// Any one byte.
    AnyChar,
    /// One byte of the set, whose bytes are listed in increasing order.
    CharIn(Vec<u8>),
    /// One byte outside the set, whose bytes are listed in increasing order.
    CharNotIn(Vec<u8>),
    /// Any run of bytes.
    AnyString,
}

impl Matcher {
    /// The set elements hold their bytes sorted and without repeats.
    pub open spec fn wf(&self) -> bool {
        match self {
            Matcher::CharIn(v) => strictly_sorted_bytes(v@),
            Matcher::CharNotIn(v) => strictly_sorted_bytes(v@),
            _ => true,
        }
    }
}

/// The set of the bytes listed in `v`.
pub open spec fn bytes_set(v: Seq<u8>) -> Set<u8> {
    Set::new(|b: u8| v.contains(b))
}

impl View for Matcher {
    type V = Elem;

    open spec fn view(&self) -> Elem {
        match self {
            Matcher::Literal(v) => Elem::Lit(v@),
            Matcher::AnyChar => Elem::AnyByte,
            Matcher::CharIn(v) => Elem::InSet(bytes_set(v@)),
            Matcher::CharNotIn(v) => Elem::NotInSet(bytes_set(v@)),
            Matcher::AnyString => Elem::AnyRun,
        }
    }
}

/// A compiled pattern: an ordered sequence of matcher elements. Once built it
/// is never changed.
pub struct Pattern {
    pub(crate) pattern: Vec<Matcher>,
}

/// The models of the elements of `v`, in order.
pub open spec fn elems_of(v: Seq<Matcher>) -> Seq<Elem> {
    Seq::new(v.len(), |i: int| v[i]@)
}

impl View for Pattern {
    type V = Seq<Elem>;

    closed spec fn view(&self) -> Seq<Elem> {
        elems_of(self.pattern@)
    }
}

impl Pattern {
    #[verifier::type_invariant]
    spec fn inv(self) -> bool {
        forall|i: int| 0 <= i < self.pattern@.len() ==> (#[trigger] self.pattern@[i]).wf()
    }
}

impl Pattern {
    /// A pattern made of the given elements, in order.
    pub(crate) fn from_matchers(matchers: Vec<Matcher>) -> (r: Pattern)
        requires
            forall|i: int| 0 <= i < matchers@.len() ==> (#[trigger] matchers@[i]).wf(),
        ensures
            r@ == elems_of(matchers@),
    {
        Pattern { pattern: matchers }
    }

    /// How many elements the pattern has.
    pub(crate) fn len(&self) -> (r: usize)
        ensures
            r == self@.len(),
    {
        self.pattern.len()
    }

    /// The element at index `i`.
    pub(crate) fn matcher(&self, i: usize) -> (r: &Matcher)
        requires
            i < self@.len(),
        ensures
            r@ == self@[i as int],
            r.wf(),
    {
        proof {
            use_type_invariant(self);
        }
        &self.pattern[i]
    }
}

} // verus!
