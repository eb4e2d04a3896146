//! A small JSON writer and reader for the wire formats this system owns:
//! objects of string fields, written in one canonical shape.
//!
//! Inside a JSON string the writer escapes the quote, the backslash and the
//! three common control characters; every other character passes through
//! unchanged.  The reader undoes exactly that, so decoding inverts encoding
//! for every string (`lemma_dec_str_of_escaped`).

use vstd::prelude::*;

verus! {

/// How one character is written inside a JSON string.
pub open spec fn esc_char(c: char) -> Seq<char> {
    if c == '"' {
        seq!['\\', '"']
    } else if c == '\\' {
        seq!['\\', '\\']
    } else if c == '\n' {
        seq!['\\', 'n']
    } else if c == '\r' {
        seq!['\\', 'r']
    } else if c == '\t' {
        seq!['\\', 't']
    } else {
        seq![c]
    }
}

/// How a whole string is written inside a JSON string.
pub open spec fn esc(s: Seq<char>) -> Seq<char>
    decreases s.len(),
{
    if s.len() == 0 {
        Seq::empty()
    } else {
        esc_char(s[0]) + esc(s.drop_first())
    }
}

pub proof fn lemma_esc_push(s: Seq<char>, c: char)
    ensures
        esc(s.push(c)) == esc(s) + esc_char(c),
    decreases s.len(),
{
    if s.len() == 0 {
        assert(s.push(c)[0] == c);
        assert(s.push(c).drop_first() =~= Seq::<char>::empty());
        assert(esc(Seq::<char>::empty()) =~= Seq::<char>::empty());
        assert(esc(s.push(c)) =~= esc_char(c) + esc(Seq::<char>::empty()));
        assert(esc(s.push(c)) =~= esc_char(c));
        assert(esc(s) + esc_char(c) =~= esc_char(c));
    } else {
        assert(s.push(c).drop_first() =~= s.drop_first().push(c));
        lemma_esc_push(s.drop_first(), c);
        assert(esc(s.push(c)) =~= esc(s) + esc_char(c));
    }
}

/// Appends the escaped form of `s` to `out`.
pub fn escape_into(out: &mut Vec<char>, s: &str)
    ensures
        final(out)@ == old(out)@ + esc(s@),
{
    let chars = crate::text::to_chars(s);
    let n = chars.len();
    let mut i: usize = 0;
    while i < n
        invariant
            n == chars@.len(),
            chars@ == s@,
            i <= n,
            out@ == old(out)@ + esc(s@.take(i as int)),
        decreases n - i,
    {
        let c = chars[i];
        if c == '"' {
            out.push('\\');
            out.push('"');
        } else if c == '\\' {
            out.push('\\');
            out.push('\\');
        } else if c == '\n' {
            out.push('\\');
            out.push('n');
        } else if c == '\r' {
            out.push('\\');
            out.push('r');
        } else if c == '\t' {
            out.push('\\');
            out.push('t');
        } else {
            out.push(c);
        }
        proof {
            lemma_esc_push(s@.take(i as int), s@[i as int]);
            assert(s@.take(i + 1) =~= s@.take(i as int).push(s@[i as int]));
            assert(out@ =~= old(out)@ + esc(s@.take(i + 1)));
        }
        i = i + 1;
    }
    proof {
        assert(s@.take(n as int) =~= s@);
    }
}

/// The character a backslash escape stands for, if the escape is accepted.
pub open spec fn unesc_char(e: char) -> Option<char> {
    if e == '"' {
        Some('"')
    } else if e == '\\' {
        Some('\\')
    } else if e == '/' {
        Some('/')
    } else if e == 'n' {
        Some('\n')
    } else if e == 'r' {
        Some('\r')
    } else if e == 't' {
        Some('\t')
    } else {
        None
    }
}

/// Reads a JSON string body out of `t` from position `i` up to its closing
/// quote.  Yields the decoded characters and the position just after the
/// quote, or `None` when the text is not a well-formed string body.
pub open spec fn dec_str(t: Seq<char>, i: int) -> Option<(Seq<char>, int)>
    decreases t.len() - i,
{
    if i < 0 || i >= t.len() {
        None
    } else if t[i] == '"' {
        Some((Seq::empty(), i + 1))
    } else if t[i] == '\\' {
        if i + 1 >= t.len() {
            None
        } else {
            match unesc_char(t[i + 1]) {
                None => None,
                Some(c) => match dec_str(t, i + 2) {
                    None => None,
                    Some(r) => Some((seq![c] + r.0, r.1)),
                },
            }
        }
    } else {
        match dec_str(t, i + 1) {
            None => None,
            Some(r) => Some((seq![t[i]] + r.0, r.1)),
        }
    }
}

/// Decoding inverts encoding: wherever the escaped form of `s` stands in `t`
/// followed by a closing quote, the reader yields exactly `s` and stops just
/// after that quote.
pub proof fn lemma_dec_str_of_escaped(t: Seq<char>, i: int, s: Seq<char>)
    requires
        0 <= i,
        i + esc(s).len() + 1 <= t.len(),
        t.subrange(i, i + esc(s).len()) == esc(s),
        t[i + esc(s).len()] == '"',
    ensures
        dec_str(t, i) == Some((s, i + esc(s).len() + 1)),
    decreases s.len(),
{
    if s.len() == 0 {
        assert(esc(s).len() == 0);
        assert(t[i] == '"');
    } else {
        let c = s[0];
        let rest = s.drop_first();
        assert(esc(s) == esc_char(c) + esc(rest));
        let k = esc_char(c).len();
        assert forall|j: int| 0 <= j < esc(s).len() implies t[i + j] == esc(s)[j] by {
            assert(t.subrange(i, i + esc(s).len())[j] == t[i + j]);
        }
        assert(forall|j: int| 0 <= j < k ==> esc(s)[j] == esc_char(c)[j]);
        assert(t[i + 0] == esc(s)[0]);
        assert(esc(s)[0] == esc_char(c)[0]);
        if k == 2 {
            assert(t[i + 1] == esc(s)[1]);
            assert(esc(s)[1] == esc_char(c)[1]);
        }
        assert(t.subrange(i, i + esc(s).len()).subrange(0, k as int) =~= esc_char(c));
        assert(t.subrange(i, i + esc(s).len()).subrange(k as int, esc(s).len() as int) =~= esc(
            rest,
        ));
        assert(t.subrange(i + k, i + esc(s).len()) =~= t.subrange(
            i,
            i + esc(s).len(),
        ).subrange(k as int, esc(s).len() as int));
        assert(t.subrange(i + k, i + k + esc(rest).len()) == esc(rest));
        lemma_dec_str_of_escaped(t, i + k, rest);
        if c == '"' || c == '\\' || c == '\n' || c == '\r' || c == '\t' {
            assert(t[i] == '\\');
            assert(unesc_char(t[i + 1]) == Some(c));
            assert(dec_str(t, i) == Some((seq![c] + rest, i + esc(s).len() + 1)));
            assert(seq![c] + rest =~= s);
        } else {
            assert(t[i] == c);
            assert(t[i] != '"' && t[i] != '\\');
            assert(dec_str(t, i) == Some((seq![c] + rest, i + esc(s).len() + 1)));
            assert(seq![c] + rest =~= s);
        }
    }
}

/// Reads one object field out of `t` at position `i`: the literal `lit`
/// (brace or comma, quoted key, colon and opening quote) followed by a JSON
/// string body.  Yields the decoded value and the position after its closing
/// quote.
pub open spec fn field_at(t: Seq<char>, i: int, lit: Seq<char>) -> Option<(Seq<char>, int)> {
    if !crate::text::lit_at(t, i, lit) {
        None
    } else {
        dec_str(t, i + lit.len())
    }
}

/// Wherever `lit`, the escaped form of `s` and a closing quote stand in `t`,
/// the field reader yields exactly `s` and stops just after that quote.
pub proof fn lemma_field_at(t: Seq<char>, i: int, lit: Seq<char>, s: Seq<char>)
    requires
        0 <= i,
        i + lit.len() + esc(s).len() + 1 <= t.len(),
        t.subrange(i, i + lit.len() + esc(s).len() + 1) == lit + esc(s) + seq!['"'],
    ensures
        field_at(t, i, lit) == Some((s, i + lit.len() + esc(s).len() + 1)),
{
    let l = lit.len() as int;
    let e = esc(s).len() as int;
    let seg = t.subrange(i, i + l + e + 1);
    assert(t.subrange(i, i + l) =~= seg.subrange(0, l));
    assert(seg.subrange(0, l) =~= lit);
    assert(t.subrange(i + l, i + l + e) =~= seg.subrange(l, l + e));
    assert(seg.subrange(l, l + e) =~= esc(s));
    assert(t[i + l + e] == seg[l + e]);
    assert(seg[l + e] == '"');
    lemma_dec_str_of_escaped(t, i + l, s);
}

/// Reads one object field out of `v` at position `i`, as `field_at` says.
pub fn field_exec(v: &Vec<char>, i: usize, lit: &str) -> (r: Option<(String, usize)>)
    ensures
        match r {
            Some(p) => field_at(v@, i as int, lit@) == Some((p.0@, p.1 as int)) && i < p.1
                <= v@.len(),
            None => field_at(v@, i as int, lit@) is None,
        },
{
    if !crate::text::match_at(v, i, lit) {
        return None;
    }
    let l = lit.unicode_len();
    let n = v.len();
    proof {
        assert(i + l <= n);
    }
    match dec_str_exec(v, i + l) {
        None => None,
        Some((body, j)) => Some((crate::text::chars_to_string(&body), j)),
    }
}

/// Reads a JSON string body out of `v` from position `i`, as `dec_str` says.
pub fn dec_str_exec(v: &Vec<char>, i: usize) -> (r: Option<(Vec<char>, usize)>)
    ensures
        match r {
            Some(p) => dec_str(v@, i as int) == Some((p.0@, p.1 as int)) && i < p.1 <= v@.len(),
            None => dec_str(v@, i as int) is None,
        },
    decreases v@.len() - i,
{
    if i >= v.len() {
        return None;
    }
    let c = v[i];
    if c == '"' {
        Some((Vec::new(), i + 1))
    } else if c == '\\' {
        if i + 1 >= v.len() {
            return None;
        }
        let e = v[i + 1];
        let dec: char = if e == '"' {
            '"'
        } else if e == '\\' {
            '\\'
        } else if e == '/' {
            '/'
        } else if e == 'n' {
            '\n'
        } else if e == 'r' {
            '\r'
        } else if e == 't' {
            '\t'
        } else {
            return None;
        };
        match dec_str_exec(v, i + 2) {
            None => None,
            Some((tail, j)) => {
                let mut out: Vec<char> = Vec::new();
                out.push(dec);
                let mut k: usize = 0;
                let m = tail.len();
                while k < m
                    invariant
                        m == tail@.len(),
                        k <= m,
                        out@ == seq![dec] + tail@.take(k as int),
                    decreases m - k,
                {
                    out.push(tail[k]);
                    k = k + 1;
                    proof {
                        assert(seq![dec] + tail@.take(k as int) =~= (seq![dec] + tail@.take(
                            k - 1,
                        )).push(tail@[k - 1]));
                    }
                }
                proof {
                    assert(tail@.take(m as int) =~= tail@);
                }
                Some((out, j))
            },
        }
    } else {
        match dec_str_exec(v, i + 1) {
            None => None,
            Some((tail, j)) => {
                let mut out: Vec<char> = Vec::new();
                out.push(c);
                let mut k: usize = 0;
                let m = tail.len();
                while k < m
                    invariant
                        m == tail@.len(),
                        k <= m,
                        out@ == seq![c] + tail@.take(k as int),
                    decreases m - k,
                {
                    out.push(tail[k]);
                    k = k + 1;
                    proof {
                        assert(seq![c] + tail@.take(k as int) =~= (seq![c] + tail@.take(
                            k - 1,
                        )).push(tail@[k - 1]));
                    }
                }
                proof {
                    assert(tail@.take(m as int) =~= tail@);
                }
                Some((out, j))
            },
        }
    }
}

} // verus!
