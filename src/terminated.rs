//! Strings that end with a terminator: one zero byte, or two at an even
//! offset for the UTF-16 encodings.
use vstd::prelude::*;
use crate::encoding::{
    Encoding, Form, all_encodable, char_bytes, encodable, encoded, form_of, str_bytes,
};

verus! {

/// The width of the terminator of `e`.
pub open spec fn term_width(e: Encoding) -> int {
    match e {
        Encoding::UTF16 | Encoding::UTF16BE => 2,
        _ => 1,
    }
}

/// The terminator of `e`.
pub open spec fn term_bytes(e: Encoding) -> Seq<u8> {
    if term_width(e) == 2 { seq![0u8, 0u8] } else { seq![0u8] }
}

/// Whether a terminator of `e` stands at `i` in `b`.
pub open spec fn term_at(e: Encoding, b: Seq<u8>, i: int) -> bool {
    if term_width(e) == 2 { b[i] == 0 && b[i + 1] == 0 } else { b[i] == 0 }
}

/// The offset of the first terminator of `e` in `b` at `i` or after, looking
/// at every `term_width(e)`-th offset.
pub open spec fn find_term(e: Encoding, b: Seq<u8>, i: int) -> Option<int>
    decreases b.len() - i,
{
    if i < 0 || i + term_width(e) > b.len() {
        None
    } else if term_at(e, b, i) {
        Some(i)
    } else {
        find_term(e, b, i + term_width(e))
    }
}

/// `b` split at its first terminator of `e`: what stands before it, and what
/// follows it.
pub open spec fn split_term(e: Encoding, b: Seq<u8>) -> Option<(Seq<u8>, Seq<u8>)> {
    match find_term(e, b, 0) {
        Some(p) => Some((b.subrange(0, p), b.subrange(p + term_width(e), b.len() as int))),
        None => None,
    }
}

/// Whether `s` holds no zero code point.
pub open spec fn no_nul(s: Seq<u32>) -> bool {
    forall|i: int| 0 <= i < s.len() ==> #[trigger] s[i] != 0
}

/// Whether `b` has no terminator of width `w` at any multiple of `w`, and its
/// length is such a multiple.
pub open spec fn term_free(w: int, b: Seq<u8>) -> bool {
    if w == 2 {
        &&& b.len() % 2 == 0
        &&& forall|k: int| 0 <= k < b.len() / 2 ==> !(#[trigger] b[2 * k] == 0 && b[2 * k + 1] == 0)
    } else {
        forall|k: int| 0 <= k < b.len() ==> #[trigger] b[k] != 0
    }
}

proof fn lemma_char_term_free(e: Encoding, c: u32)
    requires
        encodable(e, c),
        c != 0,
    ensures
        term_free(term_width(e), char_bytes(form_of(e), c)),
{
    let b = char_bytes(form_of(e), c);
    let ci = c as int;
    match form_of(e) {
        Form::Latin1 => {},
        Form::Utf8 => {
            if ci < 0x80 {
            } else if ci < 0x800 {
                assert(b[0] == (0xC0 + ci / 0x40) as u8 && b[1] == (0x80 + ci % 0x40) as u8);
                assert(b[0] != 0 && b[1] != 0);
            } else if ci < 0x1_0000 {
                assert(b[0] != 0 && b[1] == (0x80 + (ci / 0x40) % 0x40) as u8 && b[2] == (0x80 + ci
                    % 0x40) as u8);
            } else {
                assert(b[0] != 0 && b[1] == (0x80 + (ci / 0x1000) % 0x40) as u8 && b[2] == (0x80 + (
                ci / 0x40) % 0x40) as u8 && b[3] == (0x80 + ci % 0x40) as u8);
            }
        },
        _ => {
            if ci < 0x1_0000 {
                assert(ci == (ci / 0x100) * 0x100 + ci % 0x100) by (nonlinear_arith)
                    requires 0 <= ci;
                assert(b[0] == (ci / 0x100) as u8 && b[1] == (ci % 0x100) as u8);
                assert(!(b[2 * 0int] == 0 && b[2 * 0int + 1] == 0));
            } else {
                let hi = 0xD800 + (ci - 0x1_0000) / 0x400;
                let lo = 0xDC00 + (ci - 0x1_0000) % 0x400;
                assert(0xD800 <= hi < 0xDC00 && 0xDC00 <= lo < 0xE000) by (nonlinear_arith)
                    requires
                        hi == 0xD800 + (ci - 0x1_0000) / 0x400,
                        lo == 0xDC00 + (ci - 0x1_0000) % 0x400,
                        0x1_0000 <= ci < 0x11_0000;
                assert(b[0] == (hi / 0x100) as u8 && b[2] == (lo / 0x100) as u8);
                assert(b[0] != 0 && b[2] != 0);
                assert(!(b[2 * 0int] == 0 && b[2 * 0int + 1] == 0));
                assert(!(b[2 * 1int] == 0 && b[2 * 1int + 1] == 0));
            }
        },
    }
}


proof fn lemma_concat_term_free(w: int, a: Seq<u8>, b: Seq<u8>)
    requires
        w == 1 || w == 2,
        term_free(w, a),
        term_free(w, b),
    ensures
        term_free(w, a + b),
{
    let c = a + b;
    if w == 2 {
        let ha = a.len() / 2;
        assert(a.len() == 2 * ha);
        assert forall|k: int| 0 <= k < c.len() / 2 implies !(#[trigger] c[2 * k] == 0 && c[2 * k + 1]
            == 0) by {
            if k < ha {
                assert(c[2 * k] == a[2 * k] && c[2 * k + 1] == a[2 * k + 1]);
            } else {
                let j = k - ha;
                assert(c[2 * k] == b[2 * j] && c[2 * k + 1] == b[2 * j + 1]);
            }
        }
    } else {
        assert forall|k: int| 0 <= k < c.len() implies #[trigger] c[k] != 0 by {
            if k < a.len() {
                assert(c[k] == a[k]);
            } else {
                assert(c[k] == b[k - a.len()]);
            }
        }
    }
}

proof fn lemma_str_term_free(e: Encoding, s: Seq<u32>)
    requires
        all_encodable(e, s),
        no_nul(s),
    ensures
        term_free(term_width(e), str_bytes(form_of(e), s)),
    decreases s.len(),
{
    if s.len() > 0 {
        let t = s.subrange(1, s.len() as int);
        assert(all_encodable(e, t) && no_nul(t)) by {
            assert forall|i: int| 0 <= i < t.len() implies encodable(e, #[trigger] t[i]) && t[i]
                != 0 by {
                assert(t[i] == s[i + 1]);
            }
        }
        assert(encodable(e, s[0]) && s[0] != 0);
        lemma_char_term_free(e, s[0]);
        lemma_str_term_free(e, t);
        lemma_concat_term_free(term_width(e), char_bytes(form_of(e), s[0]), str_bytes(form_of(e), t));
    }
}

/// The encoding of a text without zero code points holds no terminator.
pub proof fn lemma_encoded_term_free(e: Encoding, s: Seq<u32>)
    requires
        all_encodable(e, s),
        no_nul(s),
    ensures
        term_free(term_width(e), encoded(e, s)),
{
    lemma_str_term_free(e, s);
    if e == Encoding::UTF16 {
        let bom = seq![0xFEu8, 0xFFu8];
        assert(!(bom[2 * 0int] == 0 && bom[2 * 0int + 1] == 0));
        assert(term_free(2, bom));
        lemma_concat_term_free(2, bom, str_bytes(Form::Utf16Be, s));
    }
}

proof fn lemma_find_term_from(e: Encoding, x: Seq<u8>, rest: Seq<u8>, k: int)
    requires
        term_free(term_width(e), x),
        0 <= k,
        term_width(e) * k <= x.len(),
    ensures
        find_term(e, x + term_bytes(e) + rest, term_width(e) * k) == Some(x.len() as int),
    decreases x.len() - term_width(e) * k,
{
    let w = term_width(e);
    let b = x + term_bytes(e) + rest;
    let i = w * k;
    if i == x.len() {
        assert(b[i] == 0);
        if w == 2 {
            assert(b[i + 1] == 0);
        }
    } else {
        if w == 2 {
            assert(x.len() == 2 * (x.len() / 2));
            assert(k < x.len() / 2);
            assert(b[2 * k] == x[2 * k] && b[2 * k + 1] == x[2 * k + 1]);
        } else {
            assert(b[k] == x[k]);
        }
        assert(!term_at(e, b, i));
        assert(w * (k + 1) == i + w);
        lemma_find_term_from(e, x, rest, k + 1);
    }
}

/// A text without zero code points, encoded and followed by a terminator,
/// splits off again at that terminator.
pub proof fn lemma_split_encoded(e: Encoding, s: Seq<u32>, rest: Seq<u8>)
    requires
        all_encodable(e, s),
        no_nul(s),
    ensures
        split_term(e, encoded(e, s) + term_bytes(e) + rest) == Some((encoded(e, s), rest)),
{
    lemma_encoded_term_free(e, s);
    lemma_split_raw(e, encoded(e, s), rest);
}

/// Bytes without a terminator, followed by one, split off again at it.
pub proof fn lemma_split_raw(e: Encoding, x: Seq<u8>, rest: Seq<u8>)
    requires
        term_free(term_width(e), x),
    ensures
        split_term(e, x + term_bytes(e) + rest) == Some((x, rest)),
{
    lemma_find_term_from(e, x, rest, 0);
    let b = x + term_bytes(e) + rest;
    let p = x.len() as int;
    assert(b.subrange(0, p) =~= x);
    assert(b.subrange(p + term_width(e), b.len() as int) =~= rest);
}

/// Where the first terminator of `e` in `b` from `start` on stands, looking
/// at every `term_width(e)`-th offset.
pub fn find_terminator(e: Encoding, b: &[u8], start: usize) -> (r: Option<usize>)
    ensures
        r is Some <==> find_term(e, b@, start as int) is Some,
        r is Some ==> r->0 == find_term(e, b@, start as int)->0,
{
    let w: usize = match e {
        Encoding::UTF16 | Encoding::UTF16BE => 2,
        _ => 1,
    };
    let n = b.len();
    let mut i: usize = start;
    while i <= n && w <= n - i
        invariant
            w == term_width(e),
            n == b@.len(),
            start <= i,
            find_term(e, b@, i as int) == find_term(e, b@, start as int),
        decreases n + 1 - i,
    {
        let hit = if w == 2 { b[i] == 0 && b[i + 1] == 0 } else { b[i] == 0 };
        if hit {
            return Some(i);
        }
        i = i + w;
    }
    None
}

/// A terminator that is found lies within the buffer, at or after where
/// the search started.
pub proof fn lemma_find_term_bound(e: Encoding, b: Seq<u8>, i: int)
    ensures
        find_term(e, b, i) is Some ==> i <= find_term(e, b, i)->0 && find_term(e, b, i)->0
            + term_width(e) <= b.len(),
    decreases b.len() - i,
{
    if !(i < 0 || i + term_width(e) > b.len()) && !term_at(e, b, i) {
        lemma_find_term_bound(e, b, i + term_width(e));
    }
}

} // verus!
