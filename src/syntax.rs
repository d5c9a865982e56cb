//! The pattern grammar: its meaning as spec functions over the pattern's bytes,
//! and the compiler that follows it.
//!
//! A pattern is read left to right. A run of ordinary bytes is one literal;
//! `*` matches any run of bytes; `?` matches any one byte; `\` makes the byte
//! after it literal; `[...]` matches one byte of a set (`[^...]`: one byte
//! outside it). A set lists single bytes and inclusive ranges `a-b`; either end
//! of a range may be escaped with `\`, and the escaped byte is the one right
//! after the backslash. A `-` right before `]` is a plain member of the set.
//!
//! The grammar works on bytes, not on characters: a character of several bytes
//! inside `[...]` adds each of its bytes to the set on its own.
use vstd::prelude::*;
use vstd::string::{StringExecFns, StringSliceAdditionalSpecFns};

use crate::charset::strictly_sorted_bytes;
use crate::pattern::{bytes_set, elems_of, Elem, Matcher, Pattern};

verus! {

/// `*`: any run of bytes.
pub const STAR: u8 = 42;

/// `?`: any one byte.
pub const QMARK: u8 = 63;

/// `\`: the next byte is literal.
pub const BACKSLASH: u8 = 92;

/// `[`: a set begins.
pub const OPENSQBRACKET: u8 = 91;

/// `]`: a set ends.
pub const CLOSESQBRACKET: u8 = 93;

/// `-`: a range inside a set.
pub const MINUS: u8 = 45;

/// `^`: first in a set, negates it.
pub const INVERT: u8 = 94;

/// Why a pattern could not be compiled.
#[derive(Debug)]
pub struct ParseError {
    msg: String,
}

impl View for ParseError {
    type V = Seq<char>;

    closed spec fn view(&self) -> Seq<char> {
        self.msg@
    }
}

/// The message of every syntax error: the pattern ended where more was needed.
pub open spec fn end_of_string_msg() -> Seq<char> {
    "Unexpected end of string"@
}

impl ParseError {
    /// An error that carries the message `msg`.
    pub fn from(msg: &str) -> (r: ParseError)
        ensures
            r@ == msg@,
    {
        ParseError { msg: msg.to_owned() }
    }

    /// The error's message.
    pub fn description(&self) -> (r: &str)
        ensures
            r@ == self@,
    {
        self.msg.as_str()
    }

    /// The error as text: `Parse error: ` and the message.
    pub fn to_string(&self) -> (r: String)
        ensures
            r@ == "Parse error: "@ + self@,
    {
        let mut r = String::from_str("Parse error: ");
        r.append(self.msg.as_str());
        r
    }
}

/// The bytes with a meaning of their own outside a set.
pub open spec fn is_special_byte(c: u8) -> bool {
    c == STAR || c == QMARK || c == OPENSQBRACKET || c == BACKSLASH
}

/// Where the run of ordinary bytes of `rx` that goes on from `i` ends.
pub open spec fn literal_end(rx: Seq<u8>, i: int) -> int
    decreases rx.len() - i,
{
    if 0 <= i < rx.len() && !is_special_byte(rx[i]) {
        literal_end(rx, i + 1)
    } else {
        i
    }
}

/// The bytes from `lo` to `hi`, both included (none where `lo > hi`).
pub open spec fn range_set(lo: u8, hi: u8) -> Set<u8> {
    Set::new(|c: u8| lo <= c && c <= hi)
}

/// The item of a set that starts at `i`: its first and last byte, and where
/// the next item starts; `None` where the pattern ends inside it.
pub open spec fn set_item(rx: Seq<u8>, i: int) -> Option<(u8, u8, int)> {
    let escaped = rx[i] == BACKSLASH;
    let begin = if escaped { rx[i + 1] } else { rx[i] };
    let j = if escaped { i + 2 } else { i + 1 };
    if escaped && i + 1 >= rx.len() {
        None
    } else if j >= rx.len() {
        None
    } else if rx[j] != MINUS {
        Some((begin, begin, j))
    } else if j + 1 >= rx.len() {
        None
    } else if rx[j + 1] == CLOSESQBRACKET {
        Some((begin, begin, j))
    } else if rx[j + 1] == BACKSLASH {
        if j + 2 < rx.len() {
            Some((begin, rx[j + 2], j + 3))
        } else {
            None
        }
    } else {
        Some((begin, rx[j + 1], j + 2))
    }
}

/// The items of a set from `i` on: the bytes they list, and where the closing
/// `]` stands; `None` where the pattern ends first.
pub open spec fn set_items(rx: Seq<u8>, i: int) -> Option<(Set<u8>, int)>
    decreases rx.len() - i,
{
    if i < 0 || i >= rx.len() {
        None
    } else if rx[i] == CLOSESQBRACKET {
        Some((Set::empty(), i))
    } else {
        match set_item(rx, i) {
            None => None,
            Some((lo, hi, next)) => match set_items(rx, next) {
                None => None,
                Some((rest, close)) => Some((range_set(lo, hi).union(rest), close)),
            },
        }
    }
}

/// The element that starts at `i`, and where the next one starts; `None`
/// where the pattern ends too early.
pub open spec fn parse_elem(rx: Seq<u8>, i: int) -> Option<(Elem, int)> {
    if rx[i] == STAR {
        Some((Elem::AnyRun, i + 1))
    } else if rx[i] == QMARK {
        Some((Elem::AnyByte, i + 1))
    } else if rx[i] == BACKSLASH {
        if i + 1 < rx.len() {
            Some((Elem::Lit(seq![rx[i + 1]]), i + 2))
        } else {
            None
        }
    } else if rx[i] == OPENSQBRACKET {
        if i + 1 >= rx.len() {
            None
        } else {
            let negated = rx[i + 1] == INVERT;
            let start = if negated { i + 2 } else { i + 1 };
            match set_items(rx, start) {
                None => None,
                Some((set, close)) => Some(
                    (if negated { Elem::NotInSet(set) } else { Elem::InSet(set) }, close + 1),
                ),
            }
        }
    } else {
        Some((Elem::Lit(rx.subrange(i, literal_end(rx, i + 1))), literal_end(rx, i + 1)))
    }
}

/// The elements of the pattern from `i` on; `None` where it is malformed.
pub open spec fn parse_from(rx: Seq<u8>, i: int) -> Option<Seq<Elem>>
    decreases rx.len() - i,
{
    if i < 0 || i >= rx.len() {
        Some(Seq::empty())
    } else {
        proof {
            lemma_parse_elem_advances(rx, i);
        }
        match parse_elem(rx, i) {
            None => None,
            Some((e, next)) => match parse_from(rx, next) {
                None => None,
                Some(rest) => Some(seq![e] + rest),
            },
        }
    }
}

/// What compiling the pattern `rx` gives: its elements, or `None` for a
/// syntax error.
pub open spec fn compile_spec(rx: Seq<u8>) -> Option<Seq<Elem>> {
    parse_from(rx, 0)
}

/// A run of ordinary bytes ends between where it starts and the end of the pattern.
pub proof fn lemma_literal_end_bounds(rx: Seq<u8>, i: int)
    requires
        0 <= i <= rx.len(),
    ensures
        i <= literal_end(rx, i) <= rx.len(),
    decreases rx.len() - i,
{
    if i < rx.len() && !is_special_byte(rx[i]) {
        lemma_literal_end_bounds(rx, i + 1);
    }
}

/// The closing `]` of a set stands at or after where its items start.
pub proof fn lemma_set_items_bounds(rx: Seq<u8>, i: int)
    ensures
        set_items(rx, i) matches Some((_, close)) ==> 0 <= i <= close < rx.len(),
    decreases rx.len() - i,
{
    if 0 <= i < rx.len() && rx[i] != CLOSESQBRACKET {
        if let Some((_, _, next)) = set_item(rx, i) {
            lemma_set_items_bounds(rx, next);
        }
    }
}

/// Each element takes at least one byte of the pattern, and no more than are left.
pub proof fn lemma_parse_elem_advances(rx: Seq<u8>, i: int)
    requires
        0 <= i < rx.len(),
    ensures
        parse_elem(rx, i) matches Some((_, next)) ==> i < next <= rx.len(),
{
    lemma_literal_end_bounds(rx, i + 1);
    if i + 1 < rx.len() {
        lemma_set_items_bounds(rx, i + 1);
        lemma_set_items_bounds(rx, i + 2);
    }
}

/// Fails with the end-of-string error where `idx` is past the last byte.
pub fn check_index(re: &[u8], idx: usize) -> (r: Result<(), ParseError>)
    ensures
        r is Ok <==> idx < re@.len(),
        r matches Err(e) ==> e@ == end_of_string_msg(),
{
    if idx >= re.len() {
        return Err(ParseError::from("Unexpected end of string"));
    }
    Ok(())
}

/// Tells whether `c` has a meaning of its own outside a set.
pub fn is_special(c: u8) -> (r: bool)
    ensures
        r == is_special_byte(c),
{
    c == STAR || c == QMARK || c == OPENSQBRACKET || c == BACKSLASH
}

/// Reads the set item that starts at `idx`: a byte or a range.
pub fn parse_set_item(rx: &[u8], idx: usize) -> (r: Result<(u8, u8, usize), ParseError>)
    requires
        idx < rx@.len(),
    ensures
        match r {
            Ok((lo, hi, next)) => set_item(rx@, idx as int) == Some((lo, hi, next as int)),
            Err(e) => set_item(rx@, idx as int) is None && e@ == end_of_string_msg(),
        },
{
    let mut i: usize = idx;
    let mut begin: u8 = rx[i];
    if begin == BACKSLASH {
        i += 1;
        check_index(rx, i)?;
        begin = rx[i];
    }
    i += 1;
    check_index(rx, i)?;
    if rx[i] != MINUS {
        return Ok((begin, begin, i));
    }
    check_index(rx, i + 1)?;
    if rx[i + 1] == CLOSESQBRACKET {
        return Ok((begin, begin, i));
    }
    i = i + 1;
    let end: u8 = if rx[i] == BACKSLASH {
        i = i + 1;
        check_index(rx, i)?;
        rx[i]
    } else {
        rx[i]
    };
    Ok((begin, end, i + 1))
}

/// The bytes marked in a table of 256 flags, one per byte value.
pub open spec fn marked_set(marks: Seq<bool>) -> Set<u8> {
    Set::new(|b: u8| marks[b as int])
}

/// Marks every byte from `lo` to `hi`, both included.
fn mark_range(marks: &mut Vec<bool>, lo: u8, hi: u8)
    requires
        old(marks)@.len() == 256,
    ensures
        final(marks)@.len() == 256,
        marked_set(final(marks)@) == marked_set(old(marks)@).union(range_set(lo, hi)),
{
    let mut c: u16 = lo as u16;
    while c <= hi as u16
        invariant
            marks@.len() == 256,
            lo as u16 <= c <= 256,
            c == lo as u16 || c <= hi as u16 + 1,
            forall|b: u8|
                #![trigger marks@[b as int]]
                marks@[b as int] == (old(marks)@[b as int] || (lo as u16 <= b as u16
                    && (b as u16) < c)),
        decreases 256 - c,
    {
        marks.set(c as usize, true);
        c = c + 1;
    }
    assert(marked_set(marks@) =~= marked_set(old(marks)@).union(range_set(lo, hi)));
}

/// The marked bytes, in increasing order.
fn marked_bytes(marks: &Vec<bool>) -> (r: Vec<u8>)
    requires
        marks@.len() == 256,
    ensures
        strictly_sorted_bytes(r@),
        bytes_set(r@) == marked_set(marks@),
{
    let mut r: Vec<u8> = Vec::new();
    let mut c: usize = 0;
    while c < 256
        invariant
            marks@.len() == 256,
            c <= 256,
            strictly_sorted_bytes(r@),
            forall|j: int| 0 <= j < r@.len() ==> r@[j] < c,
            forall|b: u8| #[trigger] r@.contains(b) <==> (b < c && marks@[b as int]),
        decreases 256 - c,
    {
        if marks[c] {
            let ghost prev = r@;
            r.push(c as u8);
            assert forall|b: u8| #[trigger] r@.contains(b) <==> (prev.contains(b) || b == c) by {
                if b == c {
                    assert(r@[prev.len() as int] == b);
                }
                if prev.contains(b) {
                    let j = choose|j: int| 0 <= j < prev.len() && prev[j] == b;
                    assert(r@[j] == b);
                }
                if r@.contains(b) && b != c {
                    let j = choose|j: int| 0 <= j < r@.len() && r@[j] == b;
                    assert(prev[j] == b);
                }
            }
        }
        c += 1;
    }
    assert(bytes_set(r@) =~= marked_set(marks@));
    r
}

/// Reads the element of the pattern that starts at `idx`, and where the next
/// one starts.
pub fn parse_matcher(re: &[u8], idx: usize) -> (r: Result<(Matcher, usize), ParseError>)
    requires
        idx < re@.len(),
    ensures
        match r {
            Ok((m, next)) => parse_elem(re@, idx as int) == Some((m@, next as int)) && m.wf(),
            Err(e) => parse_elem(re@, idx as int) is None && e@ == end_of_string_msg(),
        },
{
    if re[idx] == STAR {
        Ok((Matcher::AnyString, idx + 1))
    } else if re[idx] == QMARK {
        Ok((Matcher::AnyChar, idx + 1))
    } else if re[idx] == BACKSLASH {
        check_index(re, idx + 1)?;
        let lit: Vec<u8> = vec![re[idx + 1]];
        assert(lit@ =~= seq![re@[idx + 1]]);
        Ok((Matcher::Literal(lit), idx + 2))
    } else if re[idx] == OPENSQBRACKET {
        let mut i: usize = idx + 1;
        let mut invert = false;
        check_index(re, i)?;
        if re[i] == INVERT {
            i += 1;
            invert = true;
        }
        let ghost start = i as int;
        let mut marks: Vec<bool> = Vec::new();
        let mut k: usize = 0;
        while k < 256
            invariant
                k <= 256,
                marks@.len() == k,
                forall|j: int| 0 <= j < k ==> !marks@[j],
            decreases 256 - k,
        {
            marks.push(false);
            k += 1;
        }
        assert(marked_set(marks@) =~= Set::empty());
        while i < re.len() && re[i] != CLOSESQBRACKET
            invariant
                start <= i <= re@.len(),
                idx + 1 < re@.len(),
                re@[idx as int] == OPENSQBRACKET,
                start == (if re@[idx + 1] == INVERT { idx + 2 } else { idx + 1 }),
                invert == (re@[idx + 1] == INVERT),
                marks@.len() == 256,
                match set_items(re@, i as int) {
                    None => set_items(re@, start) is None,
                    Some((rest, close)) => set_items(re@, start) == Some(
                        (rest.union(marked_set(marks@)), close),
                    ),
                },
            decreases re@.len() - i,
        {
            let (begin, end, next) = match parse_set_item(re, i) {
                Ok(item) => item,
                Err(e) => {
                    assert(set_items(re@, i as int) is None);
                    return Err(e);
                },
            };
            let ghost before = marked_set(marks@);
            mark_range(&mut marks, begin, end);
            proof {
                if let Some((rest, close)) = set_items(re@, next as int) {
                    assert(rest.union(marked_set(marks@)) =~= range_set(begin, end).union(
                        rest,
                    ).union(before));
                }
            }
            i = next;
        }
        check_index(re, i)?;
        let fset = marked_bytes(&marks);
        proof {
            if let Some((rest, close)) = set_items(re@, i as int) {
                assert(rest.union(marked_set(marks@)) =~= bytes_set(fset@));
            }
        }
        if invert {
            Ok((Matcher::CharNotIn(fset), i + 1))
        } else {
            Ok((Matcher::CharIn(fset), i + 1))
        }
    } else {
        let start: usize = idx;
        let mut end: usize = idx + 1;
        while end < re.len() && !is_special(re[end])
            invariant
                idx < end <= re@.len(),
                literal_end(re@, idx + 1) == literal_end(re@, end as int),
            decreases re@.len() - end,
        {
            end += 1;
        }
        let lit = vstd::slice::slice_to_vec(vstd::slice::slice_subrange(re, start, end));
        Ok((Matcher::Literal(lit), end))
    }
}

impl Pattern {
    /// Compiles the pattern text `rx`; fails on the first syntax error.
    pub fn new(rx: &str) -> (r: Result<Pattern, ParseError>)
        ensures
            match r {
                Ok(p) => compile_spec(rx.spec_bytes()) == Some(p@),
                Err(e) => compile_spec(rx.spec_bytes()) is None && e@ == end_of_string_msg(),
            },
    {
        let re = rx.as_bytes();
        let mut matchers: Vec<Matcher> = Vec::new();
        let mut i: usize = 0;
        assert(elems_of(matchers@) + parse_from(re@, 0).unwrap() =~= parse_from(re@, 0).unwrap());
        while i < re.len()
            invariant
                i <= re@.len(),
                re@ == rx.spec_bytes(),
                forall|j: int| 0 <= j < matchers@.len() ==> (#[trigger] matchers@[j]).wf(),
                match parse_from(re@, i as int) {
                    None => parse_from(re@, 0) is None,
                    Some(rest) => parse_from(re@, 0) == Some(elems_of(matchers@) + rest),
                },
            decreases re@.len() - i,
        {
            let (m, next) = match parse_matcher(re, i) {
                Ok(item) => item,
                Err(e) => {
                    assert(parse_from(re@, i as int) is None);
                    return Err(e);
                },
            };
            proof {
                lemma_parse_elem_advances(re@, i as int);
            }
            let ghost before = elems_of(matchers@);
            matchers.push(m);
            proof {
                if let Some(rest) = parse_from(re@, next as int) {
                    assert(elems_of(matchers@) =~= before.push(m@));
                    assert(before + (seq![m@] + rest) =~= elems_of(matchers@) + rest);
                }
            }
            i = next;
        }
        assert(elems_of(matchers@) + Seq::<Elem>::empty() =~= elems_of(matchers@));
        Ok(Pattern::from_matchers(matchers))
    }
}

} // verus!
