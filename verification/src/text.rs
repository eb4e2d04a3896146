//! Character-level utilities shared by the codecs and parsers.

use vstd::prelude::*;
use vstd::string::StrSliceExecFns;

verus! {

/// The characters of `s`, one per cell.
pub fn to_chars(s: &str) -> (r: Vec<char>)
    ensures
        r@ == s@,
{
    let n = s.unicode_len();
    let mut r: Vec<char> = Vec::new();
    let mut i: usize = 0;
    while i < n
        invariant
            n == s@.len(),
            i <= n,
            r@ == s@.take(i as int),
        decreases n - i,
    {
        r.push(s.get_char(i));
        i = i + 1;
        proof {
            assert(s@.take(i as int) =~= s@.take(i as int - 1).push(s@[i as int - 1]));
        }
    }
    proof {
        assert(s@.take(n as int) =~= s@);
    }
    r
}

/// A `String` holding exactly the characters of `v`.
///
/// Relies on `core::iter::Iterator::collect` for `String`: collecting an
/// iterator of `char`s yields the string of those characters in order.
#[verifier::external_body]
pub fn chars_to_string(v: &Vec<char>) -> (r: String)
    ensures
        r@ == v@,
{
    v.iter().collect()
}

/// Appends the characters of `s` to `out`.
pub fn push_str_chars(out: &mut Vec<char>, s: &str)
    ensures
        final(out)@ == old(out)@ + s@,
{
    let n = s.unicode_len();
    let mut i: usize = 0;
    while i < n
        invariant
            n == s@.len(),
            i <= n,
            out@ == old(out)@ + s@.take(i as int),
        decreases n - i,
    {
        out.push(s.get_char(i));
        i = i + 1;
        proof {
            assert(old(out)@ + s@.take(i as int) =~= (old(out)@ + s@.take(i as int - 1)).push(
                s@[i as int - 1],
            ));
        }
    }
    proof {
        assert(old(out)@ + s@.take(n as int) =~= old(out)@ + s@);
    }
}

/// Whether the characters of `lit` stand in `v` at position `i`.
pub open spec fn lit_at(v: Seq<char>, i: int, lit: Seq<char>) -> bool {
    &&& 0 <= i
    &&& i + lit.len() <= v.len()
    &&& v.subrange(i, i + lit.len()) == lit
}

/// Tests whether the characters of `lit` stand in `v` at position `i`.
pub fn match_at(v: &Vec<char>, i: usize, lit: &str) -> (r: bool)
    ensures
        r == lit_at(v@, i as int, lit@),
{
    let n = lit.unicode_len();
    if n > v.len() || i > v.len() - n {
        proof {
            assert(!lit_at(v@, i as int, lit@));
        }
        return false;
    }
    let vl = v.len();
    let mut j: usize = 0;
    while j < n
        invariant
            n == lit@.len(),
            vl == v@.len(),
            i + n <= vl,
            j <= n,
            forall|k: int| 0 <= k < j ==> v@[i + k] == lit@[k],
        decreases n - j,
    {
        if v[i + j] != lit.get_char(j) {
            proof {
                assert(v@.subrange(i as int, i + lit@.len())[j as int] != lit@[j as int]);
            }
            return false;
        }
        j = j + 1;
    }
    proof {
        assert(v@.subrange(i as int, i + lit@.len()) =~= lit@);
    }
    true
}

/// Character-for-character equality of two strings.
pub fn str_eq(a: &str, b: &str) -> (r: bool)
    ensures
        r == (a@ == b@),
{
    let na = a.unicode_len();
    let nb = b.unicode_len();
    if na != nb {
        return false;
    }
    let mut i: usize = 0;
    while i < na
        invariant
            i <= na,
            na == a@.len(),
            na == b@.len(),
            forall|k: int| 0 <= k < i ==> a@[k] == b@[k],
        decreases na - i,
    {
        if a.get_char(i) != b.get_char(i) {
            return false;
        }
        i = i + 1;
    }
    proof {
        assert(a@ =~= b@);
    }
    true
}

/// A vector of characters looks the same shallow and deep.
pub proof fn lemma_chars_deep(v: Vec<char>)
    ensures
        v.deep_view() == v@,
{
    assert(v.deep_view() =~= v@);
}

/// Pushing onto a vector pushes onto its deep view.
pub proof fn lemma_push_deep_view<T: DeepView>(v1: Vec<T>, v2: Vec<T>, x: T)
    requires
        v2@ == v1@.push(x),
    ensures
        v2.deep_view() == v1.deep_view().push(x.deep_view()),
{
    assert(v2.deep_view() =~= v1.deep_view().push(x.deep_view()));
}

/// An element of the deep view is the element's deep view.
pub proof fn lemma_index_deep_view<T: DeepView>(v: Vec<T>, i: int)
    requires
        0 <= i < v@.len(),
    ensures
        v.deep_view()[i] == v@[i].deep_view(),
        v.deep_view().len() == v@.len(),
{
}

/// The pieces of `s` between occurrences of `sep`: always one more piece
/// than separators, so the empty sequence has one empty piece.
pub open spec fn spec_split(s: Seq<char>, sep: char) -> Seq<Seq<char>>
    decreases s.len(),
{
    if s.len() == 0 {
        seq![Seq::empty()]
    } else if s[0] == sep {
        seq![Seq::<char>::empty()] + spec_split(s.drop_first(), sep)
    } else {
        let rest = spec_split(s.drop_first(), sep);
        seq![seq![s[0]] + rest[0]] + rest.drop_first()
    }
}

pub proof fn lemma_split_len(s: Seq<char>, sep: char)
    ensures
        spec_split(s, sep).len() >= 1,
    decreases s.len(),
{
    if s.len() != 0 {
        lemma_split_len(s.drop_first(), sep);
    }
}

/// Splits `v` on `sep`, as `spec_split` says.
pub fn split_chars(v: &Vec<char>, sep: char) -> (r: Vec<Vec<char>>)
    ensures
        r.deep_view() == spec_split(v@, sep),
{
    let n = v.len();
    let mut first: Vec<char> = Vec::new();
    let mut rest: Vec<Vec<char>> = Vec::new();
    let mut i: usize = n;
    proof {
        assert(v@.skip(n as int) =~= Seq::<char>::empty());
        assert(seq![first@] + rest.deep_view() =~~= spec_split(v@.skip(n as int), sep));
    }
    while i > 0
        invariant
            i <= n,
            n == v@.len(),
            seq![first@] + rest.deep_view() == spec_split(v@.skip(i as int), sep),
        decreases i,
    {
        i = i - 1;
        let c = v[i];
        proof {
            assert(v@.skip(i as int).len() > 0);
            assert(v@.skip(i as int)[0] == c);
            assert(v@.skip(i as int).drop_first() =~= v@.skip(i + 1));
        }
        let ghost prev = spec_split(v@.skip(i + 1), sep);
        let ghost first_old = first@;
        proof {
            assert(prev[0] == first_old);
            assert(prev.drop_first() =~~= rest.deep_view());
        }
        if c == sep {
            let done = first;
            first = Vec::new();
            rest.insert(0, done);
            proof {
                assert(spec_split(v@.skip(i as int), sep) == seq![Seq::<char>::empty()] + prev);
                assert(seq![first@] + rest.deep_view() =~~= seq![Seq::<char>::empty()] + prev);
            }
        } else {
            first.insert(0, c);
            proof {
                assert(spec_split(v@.skip(i as int), sep) == seq![seq![c] + prev[0]]
                    + prev.drop_first());
                assert(first@ =~= seq![c] + first_old);
                assert(seq![first@] + rest.deep_view() =~~= seq![seq![c] + prev[0]]
                    + prev.drop_first());
            }
        }
    }
    let mut out = rest;
    out.insert(0, first);
    proof {
        assert(v@.skip(0) =~= v@);
        assert(out.deep_view() =~~= spec_split(v@, sep));
    }
    out
}

/// An ASCII whitespace character, as the benchmark listing separates names.
pub open spec fn is_space(c: char) -> bool {
    c == ' ' || c == '\t' || c == '\n' || c == '\r'
}

/// The whitespace-separated words of `s`: maximal runs of non-space
/// characters, in order, with no empty words.
pub open spec fn spec_split_ws(s: Seq<char>) -> Seq<Seq<char>>
    decreases s.len(),
{
    if s.len() == 0 {
        Seq::empty()
    } else if is_space(s[0]) {
        spec_split_ws(s.drop_first())
    } else {
        let rest = spec_split_ws(s.drop_first());
        if s.len() > 1 && !is_space(s[1]) {
            seq![seq![s[0]] + rest[0]] + rest.drop_first()
        } else {
            seq![seq![s[0]]] + rest
        }
    }
}

/// Splits `v` into whitespace-separated words, as `spec_split_ws` says.
pub fn split_ws(v: &Vec<char>) -> (r: Vec<Vec<char>>)
    ensures
        r.deep_view() == spec_split_ws(v@),
{
    let n = v.len();
    let mut acc: Vec<Vec<char>> = Vec::new();
    let mut i: usize = n;
    proof {
        assert(v@.skip(n as int) =~= Seq::<char>::empty());
        assert(acc.deep_view() =~~= spec_split_ws(v@.skip(n as int)));
    }
    while i > 0
        invariant
            i <= n,
            n == v@.len(),
            acc.deep_view() == spec_split_ws(v@.skip(i as int)),
        decreases i,
    {
        i = i - 1;
        let c = v[i];
        proof {
            assert(v@.skip(i as int).len() > 0);
            assert(v@.skip(i as int)[0] == c);
            assert(v@.skip(i as int).drop_first() =~= v@.skip(i + 1));
        }
        let ghost prev = spec_split_ws(v@.skip(i + 1));
        if c == ' ' || c == '\t' || c == '\n' || c == '\r' {
            proof {
                assert(spec_split_ws(v@.skip(i as int)) == prev);
            }
        } else if i + 1 < n && {
            let c1 = v[i + 1];
            !(c1 == ' ' || c1 == '\t' || c1 == '\n' || c1 == '\r')
        } {
            let ghost acc0 = acc;
            proof {
                assert(v@.skip(i as int).len() > 1);
                assert(v@.skip(i as int)[1] == v@[i + 1]);
                assert(spec_split_ws(v@.skip(i as int)) == seq![seq![c] + prev[0]]
                    + prev.drop_first());
                assert(prev.len() >= 1);
                lemma_index_deep_view(acc0, 0);
                lemma_chars_deep(acc0@[0]);
            }
            let mut tok = acc.remove(0);
            tok.insert(0, c);
            let ghost tok_snap = tok;
            acc.insert(0, tok);
            proof {
                assert(tok_snap@ =~= seq![c] + prev[0]);
                assert(acc@ == acc0@.remove(0).insert(0, tok_snap));
                assert forall|jx: int|
                    0 <= jx < acc.deep_view().len() implies acc.deep_view()[jx] == (seq![
                        seq![c] + prev[0],
                    ] + prev.drop_first())[jx] by {
                    lemma_index_deep_view(acc, jx);
                    if jx == 0 {
                        lemma_chars_deep(tok_snap);
                    } else {
                        assert(acc@[jx] == acc0@[jx]);
                        lemma_index_deep_view(acc0, jx);
                    }
                }
                assert(acc.deep_view() =~~= seq![seq![c] + prev[0]] + prev.drop_first());
            }
        } else {
            proof {
                if v@.skip(i as int).len() > 1 {
                    assert(v@.skip(i as int)[1] == v@[i + 1]);
                }
                assert(spec_split_ws(v@.skip(i as int)) == seq![seq![c]] + prev);
            }
            let mut tok: Vec<char> = Vec::new();
            tok.push(c);
            acc.insert(0, tok);
            proof {
                assert(acc.deep_view() =~~= seq![seq![c]] + prev);
            }
        }
    }
    proof {
        assert(v@.skip(0) =~= v@);
    }
    acc
}

/// The characters of `v` from `a` (inclusive) to `b` (exclusive).
pub fn subrange_vec(v: &Vec<char>, a: usize, b: usize) -> (r: Vec<char>)
    requires
        a <= b <= v@.len(),
    ensures
        r@ == v@.subrange(a as int, b as int),
{
    let mut r: Vec<char> = Vec::new();
    let mut i: usize = a;
    while i < b
        invariant
            a <= i <= b <= v@.len(),
            r@ == v@.subrange(a as int, i as int),
        decreases b - i,
    {
        r.push(v[i]);
        i = i + 1;
        proof {
            assert(v@.subrange(a as int, i as int) =~= v@.subrange(a as int, i as int - 1).push(
                v@[i as int - 1],
            ));
        }
    }
    r
}

} // verus!
