//! Text renderings of compiled patterns and of match captures, for
//! diagnostics. Neither is a stable format: a rendered pattern does not escape
//! its literal bytes, so it need not compile back to the same pattern.
use vstd::prelude::*;

use crate::charset::strictly_sorted_bytes;
use crate::matching::CheckResult;
use crate::pattern::{bytes_set, Elem, Matcher, Pattern};
use crate::syntax::{CLOSESQBRACKET, INVERT, OPENSQBRACKET, QMARK, STAR};

verus! {

/// The text that `String::from_utf8_lossy` makes of the bytes `b`.
pub uninterp spec fn utf8_lossy(b: Seq<u8>) -> Seq<char>;

/// Relies on `String::from_utf8_lossy`: the text it gives depends on the bytes
/// alone.
#[verifier::external_body]
fn lossy_string(b: &[u8]) -> (r: String)
    ensures
        r@ == utf8_lossy(b@),
{
    String::from_utf8_lossy(b).into_owned()
}

/// The members of `set` from `c` up, in increasing order.
pub open spec fn members_from(set: Set<u8>, c: int) -> Seq<u8>
    decreases 256 - c,
{
    if c < 0 || c >= 256 {
        Seq::empty()
    } else if set.contains(c as u8) {
        seq![c as u8] + members_from(set, c + 1)
    } else {
        members_from(set, c + 1)
    }
}

/// The members of `set`, in increasing order.
pub open spec fn members(set: Set<u8>) -> Seq<u8> {
    members_from(set, 0)
}

/// A strictly increasing list of bytes, all at least `c`, is the list of the
/// members from `c` up of any set that agrees with it from `c` up.
proof fn lemma_members_from(set: Set<u8>, v: Seq<u8>, c: int)
    requires
        0 <= c <= 256,
        strictly_sorted_bytes(v),
        forall|j: int| 0 <= j < v.len() ==> v[j] >= c,
        forall|b: u8| b >= c ==> (set.contains(b) <==> #[trigger] v.contains(b)),
    ensures
        members_from(set, c) == v,
    decreases 256 - c,
{
    if c == 256 {
        if v.len() > 0 {
            assert(v[0] >= 256);
        }
        assert(v =~= Seq::<u8>::empty());
    } else if set.contains(c as u8) {
        assert(v.contains(c as u8));
        let k = choose|k: int| 0 <= k < v.len() && v[k] == c as u8;
        if k > 0 {
            assert(v[0] < v[k]);
        }
        let rest = v.drop_first();
        assert forall|b: u8| b >= c + 1 implies (set.contains(b) <==> #[trigger] rest.contains(b)) by {
            if v.contains(b) {
                let j = choose|j: int| 0 <= j < v.len() && v[j] == b;
                assert(j != 0);
                assert(rest[j - 1] == b);
            }
            if rest.contains(b) {
                let j = choose|j: int| 0 <= j < rest.len() && rest[j] == b;
                assert(v[j + 1] == b);
            }
        }
        assert forall|j: int| 0 <= j < rest.len() implies rest[j] >= c + 1 by {
            assert(v[0] < v[j + 1]);
        }
        lemma_members_from(set, rest, c + 1);
        assert(v =~= seq![c as u8] + rest);
    } else {
        assert forall|j: int| 0 <= j < v.len() implies v[j] >= c + 1 by {
            if v[j] == c {
                assert(v.contains(c as u8));
            }
        }
        lemma_members_from(set, v, c + 1);
    }
}

/// How one element is rendered.
pub open spec fn render_elem(e: Elem) -> Seq<u8> {
    match e {
        Elem::Lit(v) => v,
        Elem::AnyByte => seq![QMARK],
        Elem::InSet(set) => seq![OPENSQBRACKET] + members(set) + seq![CLOSESQBRACKET],
        Elem::NotInSet(set) => seq![OPENSQBRACKET, INVERT] + members(set) + seq![CLOSESQBRACKET],
        Elem::AnyRun => seq![STAR],
    }
}

/// How a sequence of elements is rendered: each in turn.
pub open spec fn render_elems(p: Seq<Elem>) -> Seq<u8>
    decreases p.len(),
{
    if p.len() == 0 {
        Seq::empty()
    } else {
        render_elems(p.drop_last()) + render_elem(p.last())
    }
}

/// How the captures `c` are rendered: `M[`, then ` '...'` for each capture,
/// then ` ]`.
pub open spec fn render_captures(c: Seq<Seq<u8>>) -> Seq<u8> {
    seq![77u8, 91u8] + captures_list(c) + seq![32u8, 93u8]
}

/// Each capture of `c` as ` '...'`, in order.
pub open spec fn captures_list(c: Seq<Seq<u8>>) -> Seq<u8>
    decreases c.len(),
{
    if c.len() == 0 {
        Seq::empty()
    } else {
        captures_list(c.drop_last()) + (seq![32u8, 39u8] + c.last() + seq![39u8])
    }
}

/// Appends the bytes of `v` to `out`.
fn append_bytes(out: &mut Vec<u8>, v: &[u8])
    ensures
        final(out)@ == old(out)@ + v@,
{
    let mut i: usize = 0;
    while i < v.len()
        invariant
            i <= v@.len(),
            out@ == old(out)@ + v@.subrange(0, i as int),
        decreases v@.len() - i,
    {
        out.push(v[i]);
        i += 1;
        assert(out@ =~= old(out)@ + v@.subrange(0, i as int));
    }
    assert(v@.subrange(0, i as int) =~= v@);
}

impl Pattern {
    /// The pattern rendered as bytes: literals as they are, `?`, `*`, and each
    /// set as `[...]` or `[^...]` with its members in increasing order.
    pub fn render(&self) -> (r: Vec<u8>)
        ensures
            r@ == render_elems(self@),
    {
        let mut out: Vec<u8> = Vec::new();
        let n: usize = self.len();
        let mut i: usize = 0;
        while i < n
            invariant
                n == self@.len(),
                i <= n,
                out@ == render_elems(self@.subrange(0, i as int)),
            decreases n - i,
        {
            let m = self.matcher(i);
            let ghost before = out@;
            match m {
                Matcher::Literal(v) => {
                    append_bytes(&mut out, v.as_slice());
                },
                Matcher::AnyChar => {
                    out.push(QMARK);
                },
                Matcher::CharIn(v) => {
                    out.push(OPENSQBRACKET);
                    append_bytes(&mut out, v.as_slice());
                    out.push(CLOSESQBRACKET);
                    proof {
                        lemma_members_from(bytes_set(v@), v@, 0);
                    }
                },
                Matcher::CharNotIn(v) => {
                    out.push(OPENSQBRACKET);
                    out.push(INVERT);
                    append_bytes(&mut out, v.as_slice());
                    out.push(CLOSESQBRACKET);
                    proof {
                        lemma_members_from(bytes_set(v@), v@, 0);
                    }
                },
                Matcher::AnyString => {
                    out.push(STAR);
                },
            }
            proof {
                let next = self@.subrange(0, i + 1);
                assert(next.drop_last() =~= self@.subrange(0, i as int));
                assert(out@ =~= before + render_elem(self@[i as int]));
            }
            i += 1;
        }
        assert(self@.subrange(0, n as int) =~= self@);
        out
    }

    /// The pattern rendered as text; bytes that are not UTF-8 become U+FFFD.
    pub fn to_string(&self) -> (r: String)
        ensures
            r@ == utf8_lossy(render_elems(self@)),
    {
        let b = self.render();
        lossy_string(b.as_slice())
    }
}

impl CheckResult {
    /// The captures rendered as bytes: `M[`, ` '...'` for each, then ` ]`.
    pub fn render(&self) -> (r: Vec<u8>)
        ensures
            r@ == render_captures(self@),
    {
        let mut out: Vec<u8> = Vec::new();
        out.push(77u8);
        out.push(91u8);
        let n: usize = self.group_count();
        let mut i: usize = 0;
        assert(self@.subrange(0, 0) =~= Seq::<Seq<u8>>::empty());
        while i < n
            invariant
                n == self@.len(),
                i <= n,
                out@ == seq![77u8, 91u8] + captures_list(self@.subrange(0, i as int)),
            decreases n - i,
        {
            let ghost before = out@;
            out.push(32u8);
            out.push(39u8);
            append_bytes(&mut out, self.group(i).as_slice());
            out.push(39u8);
            proof {
                let next = self@.subrange(0, i + 1);
                assert(next.drop_last() =~= self@.subrange(0, i as int));
                assert(out@ =~= before + (seq![32u8, 39u8] + self@[i as int] + seq![39u8]));
            }
            i += 1;
        }
        out.push(32u8);
        out.push(93u8);
        assert(self@.subrange(0, n as int) =~= self@);
        out
    }

    /// The captures rendered as text; bytes that are not UTF-8 become U+FFFD.
    pub fn to_string(&self) -> (r: String)
        ensures
            r@ == utf8_lossy(render_captures(self@)),
    {
        let b = self.render();
        lossy_string(b.as_slice())
    }
}

} // verus!
