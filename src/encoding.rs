//! Conversion between text, held as Unicode code points, and the four text
//! encodings of ID3v2.
use vstd::prelude::*;
use crate::error::Error;

verus! {

/// A text encoding of ID3v2, named by the encoding byte of a frame.
#[derive(Clone, Copy, Debug, PartialEq, Eq, Structural)]
pub enum Encoding {
    /// ISO-8859-1: one byte per code point below 256.
    Latin1,
    /// UTF-16 preceded by a byte-order mark.
    UTF16,
    /// UTF-16 big-endian, without a byte-order mark.
    UTF16BE,
    /// UTF-8.
    UTF8,
}

/// How code points are laid out in bytes, once any byte-order mark is read.
#[derive(Clone, Copy, Debug, PartialEq, Eq, Structural)]
pub enum Form {
    /// One byte per code point.
    Latin1,
    /// UTF-16 code units, most significant byte first.
    Utf16Be,
    /// UTF-16 code units, least significant byte first.
    Utf16Le,
    /// UTF-8.
    Utf8,
}

/// A Unicode scalar value.
pub open spec fn is_scalar(c: u32) -> bool {
    c < 0xD800 || (0xE000 <= c && c < 0x11_0000)
}

/// Whether `c` can be written in `e`.
pub open spec fn encodable(e: Encoding, c: u32) -> bool {
    is_scalar(c) && (e == Encoding::Latin1 ==> c < 0x100)
}

/// Whether every code point of `s` can be written in `e`.
pub open spec fn all_encodable(e: Encoding, s: Seq<u32>) -> bool {
    forall|i: int| 0 <= i < s.len() ==> encodable(e, #[trigger] s[i])
}

/// The bytes of one code point in big-endian UTF-16.
pub open spec fn utf16_be_bytes(c: int) -> Seq<u8> {
    if c < 0x1_0000 {
        seq![(c / 0x100) as u8, (c % 0x100) as u8]
    } else {
        let hi = 0xD800 + (c - 0x1_0000) / 0x400;
        let lo = 0xDC00 + (c - 0x1_0000) % 0x400;
        seq![(hi / 0x100) as u8, (hi % 0x100) as u8, (lo / 0x100) as u8, (lo % 0x100) as u8]
    }
}

/// The bytes of one code point in UTF-8.
pub open spec fn utf8_bytes(c: int) -> Seq<u8> {
    if c < 0x80 {
        seq![c as u8]
    } else if c < 0x800 {
        seq![(0xC0 + c / 0x40) as u8, (0x80 + c % 0x40) as u8]
    } else if c < 0x1_0000 {
        seq![(0xE0 + c / 0x1000) as u8, (0x80 + (c / 0x40) % 0x40) as u8, (0x80 + c % 0x40) as u8]
    } else {
        seq![
            (0xF0 + c / 0x4_0000) as u8,
            (0x80 + (c / 0x1000) % 0x40) as u8,
            (0x80 + (c / 0x40) % 0x40) as u8,
            (0x80 + c % 0x40) as u8,
        ]
    }
}

/// The bytes of one code point in the form `f` (big-endian for UTF-16).
pub open spec fn char_bytes(f: Form, c: u32) -> Seq<u8> {
    match f {
        Form::Latin1 => seq![c as u8],
        Form::Utf8 => utf8_bytes(c as int),
        _ => utf16_be_bytes(c as int),
    }
}

/// The bytes of all of `s` in the form `f`.
pub open spec fn str_bytes(f: Form, s: Seq<u32>) -> Seq<u8>
    decreases s.len(),
{
    if s.len() == 0 {
        Seq::empty()
    } else {
        char_bytes(f, s[0]) + str_bytes(f, s.subrange(1, s.len() as int))
    }
}

/// The bytes that encode `s` in `e`. UTF-16 with a byte-order mark is
/// written big-endian, after the mark `0xFE 0xFF`.
pub open spec fn encoded(e: Encoding, s: Seq<u32>) -> Seq<u8> {
    match e {
        Encoding::Latin1 => str_bytes(Form::Latin1, s),
        Encoding::UTF16 => seq![0xFEu8, 0xFFu8] + str_bytes(Form::Utf16Be, s),
        Encoding::UTF16BE => str_bytes(Form::Utf16Be, s),
        Encoding::UTF8 => str_bytes(Form::Utf8, s),
    }
}

/// The UTF-16 code unit at `i` in the form `f`.
pub open spec fn unit_at(f: Form, b: Seq<u8>, i: int) -> int {
    if f == Form::Utf16Le {
        b[i + 1] * 0x100 + b[i]
    } else {
        b[i] * 0x100 + b[i + 1]
    }
}

/// Whether `x` is a UTF-8 continuation byte.
pub open spec fn is_cont(x: u8) -> bool {
    0x80 <= x < 0xC0
}

/// The first code point of `b` in the form `f` and how many bytes it takes,
/// or `None` where `b` does not start with a well-formed one.
pub open spec fn first_char(f: Form, b: Seq<u8>) -> Option<(u32, int)> {
    match f {
        Form::Latin1 => if b.len() >= 1 { Some((b[0] as u32, 1)) } else { None },
        Form::Utf8 => {
            if b.len() >= 1 && b[0] < 0x80 {
                Some((b[0] as u32, 1))
            } else if b.len() >= 2 && 0xC2 <= b[0] < 0xE0 && is_cont(b[1]) {
                Some((((b[0] - 0xC0) * 0x40 + (b[1] - 0x80)) as u32, 2))
            } else if b.len() >= 3 && 0xE0 <= b[0] < 0xF0 && is_cont(b[1]) && is_cont(b[2]) {
                let c = (b[0] - 0xE0) * 0x1000 + (b[1] - 0x80) * 0x40 + (b[2] - 0x80);
                if c >= 0x800 && !(0xD800 <= c < 0xE000) { Some((c as u32, 3)) } else { None }
            } else if b.len() >= 4 && 0xF0 <= b[0] < 0xF5 && is_cont(b[1]) && is_cont(b[2])
                && is_cont(b[3]) {
                let c = (b[0] - 0xF0) * 0x4_0000 + (b[1] - 0x80) * 0x1000 + (b[2] - 0x80) * 0x40
                    + (b[3] - 0x80);
                if 0x1_0000 <= c < 0x11_0000 { Some((c as u32, 4)) } else { None }
            } else {
                None
            }
        },
        _ => {
            if b.len() < 2 {
                None
            } else if 0xD800 <= unit_at(f, b, 0) < 0xDC00 {
                if b.len() >= 4 && 0xDC00 <= unit_at(f, b, 2) < 0xE000 {
                    Some(((0x1_0000 + (unit_at(f, b, 0) - 0xD800) * 0x400 + (unit_at(f, b, 2)
                        - 0xDC00)) as u32, 4))
                } else {
                    None
                }
            } else if 0xDC00 <= unit_at(f, b, 0) < 0xE000 {
                None
            } else {
                Some((unit_at(f, b, 0) as u32, 2))
            }
        },
    }
}

/// The code points of `b` in the form `f`, or `None` where it is not
/// well-formed.
pub open spec fn chars_of(f: Form, b: Seq<u8>) -> Option<Seq<u32>>
    decreases b.len(),
{
    if b.len() == 0 {
        Some(Seq::empty())
    } else {
        match first_char(f, b) {
            Some((c, k)) => if 1 <= k <= b.len() {
                match chars_of(f, b.subrange(k, b.len() as int)) {
                    Some(t) => Some(seq![c] + t),
                    None => None,
                }
            } else {
                None
            },
            None => None,
        }
    }
}

/// The text that the bytes `b` encode in `e`, or `None` where they are not
/// valid in it. UTF-16 with a byte-order mark takes either byte order; an
/// empty buffer is the empty text.
pub open spec fn decoded(e: Encoding, b: Seq<u8>) -> Option<Seq<u32>> {
    match e {
        Encoding::Latin1 => chars_of(Form::Latin1, b),
        Encoding::UTF16BE => chars_of(Form::Utf16Be, b),
        Encoding::UTF8 => chars_of(Form::Utf8, b),
        Encoding::UTF16 => if b.len() == 0 {
            Some(Seq::empty())
        } else if b.len() >= 2 && b[0] == 0xFE && b[1] == 0xFF {
            chars_of(Form::Utf16Be, b.subrange(2, b.len() as int))
        } else if b.len() >= 2 && b[0] == 0xFF && b[1] == 0xFE {
            chars_of(Form::Utf16Le, b.subrange(2, b.len() as int))
        } else {
            None
        },
    }
}

/// The form that code points take in `e` once a byte-order mark is read.
pub open spec fn form_of(e: Encoding) -> Form {
    match e {
        Encoding::Latin1 => Form::Latin1,
        Encoding::UTF8 => Form::Utf8,
        _ => Form::Utf16Be,
    }
}

proof fn lemma_first_char_utf16(c: u32, rest: Seq<u8>)
    requires
        is_scalar(c),
    ensures
        first_char(Form::Utf16Be, char_bytes(Form::Utf16Be, c) + rest) == Some(
            (c, char_bytes(Form::Utf16Be, c).len() as int),
        ),
{
    let b = char_bytes(Form::Utf16Be, c) + rest;
    let ci = c as int;
    if ci < 0x1_0000 {
        assert(b[0] == ci / 0x100 && b[1] == ci % 0x100) by (nonlinear_arith)
            requires b[0] == (ci / 0x100) as u8, b[1] == (ci % 0x100) as u8, 0 <= ci < 0x1_0000;
        assert(unit_at(Form::Utf16Be, b, 0) == ci) by (nonlinear_arith)
            requires b[0] == ci / 0x100, b[1] == ci % 0x100, 0 <= ci;
    } else {
        let hi = 0xD800 + (ci - 0x1_0000) / 0x400;
        let lo = 0xDC00 + (ci - 0x1_0000) % 0x400;
        assert(0xD800 <= hi < 0xDC00 && 0xDC00 <= lo < 0xE000 && ci == 0x1_0000 + (hi - 0xD800)
            * 0x400 + (lo - 0xDC00)) by (nonlinear_arith)
            requires
                hi == 0xD800 + (ci - 0x1_0000) / 0x400,
                lo == 0xDC00 + (ci - 0x1_0000) % 0x400,
                0x1_0000 <= ci < 0x11_0000;
        assert(b[0] == hi / 0x100 && b[1] == hi % 0x100 && b[2] == lo / 0x100 && b[3] == lo
            % 0x100) by (nonlinear_arith)
            requires
                b[0] == (hi / 0x100) as u8, b[1] == (hi % 0x100) as u8,
                b[2] == (lo / 0x100) as u8, b[3] == (lo % 0x100) as u8,
                0 <= hi < 0x1_0000, 0 <= lo < 0x1_0000;
        assert(unit_at(Form::Utf16Be, b, 0) == hi && unit_at(Form::Utf16Be, b, 2) == lo)
            by (nonlinear_arith)
            requires
                b[0] == hi / 0x100, b[1] == hi % 0x100, b[2] == lo / 0x100, b[3] == lo % 0x100,
                hi >= 0, lo >= 0;
    }
}

proof fn lemma_first_char_utf8(c: u32, rest: Seq<u8>)
    requires
        is_scalar(c),
    ensures
        first_char(Form::Utf8, char_bytes(Form::Utf8, c) + rest) == Some(
            (c, char_bytes(Form::Utf8, c).len() as int),
        ),
{
    let b = char_bytes(Form::Utf8, c) + rest;
    let ci = c as int;
    if ci < 0x80 {
        assert(b[0] == ci);
    } else if ci < 0x800 {
        assert(0xC2 <= 0xC0 + ci / 0x40 < 0xE0 && 0 <= ci % 0x40 < 0x40 && ci == (ci / 0x40)
            * 0x40 + ci % 0x40) by (nonlinear_arith)
            requires 0x80 <= ci < 0x800;
        assert(b[0] == 0xC0 + ci / 0x40 && b[1] == 0x80 + ci % 0x40);
    } else if ci < 0x1_0000 {
        let (x, y, z) = (ci / 0x1000, (ci / 0x40) % 0x40, ci % 0x40);
        assert(0 <= x < 0x10 && 0 <= y < 0x40 && 0 <= z < 0x40 && ci == x * 0x1000 + y * 0x40
            + z) by (nonlinear_arith)
            requires x == ci / 0x1000, y == (ci / 0x40) % 0x40, z == ci % 0x40, 0x800 <= ci < 0x1_0000;
        assert(b[0] == 0xE0 + x && b[1] == 0x80 + y && b[2] == 0x80 + z);
    } else {
        let (w, x, y, z) = (ci / 0x4_0000, (ci / 0x1000) % 0x40, (ci / 0x40) % 0x40, ci % 0x40);
        assert(0 <= w < 5 && 0 <= x < 0x40 && 0 <= y < 0x40 && 0 <= z < 0x40 && ci == w
            * 0x4_0000 + x * 0x1000 + y * 0x40 + z) by (nonlinear_arith)
            requires
                w == ci / 0x4_0000, x == (ci / 0x1000) % 0x40, y == (ci / 0x40) % 0x40,
                z == ci % 0x40, 0x1_0000 <= ci < 0x11_0000;
        assert(b[0] == 0xF0 + w && b[1] == 0x80 + x && b[2] == 0x80 + y && b[3] == 0x80 + z);
    }
}

proof fn lemma_first_char(e: Encoding, c: u32, rest: Seq<u8>)
    requires
        encodable(e, c),
    ensures
        first_char(form_of(e), char_bytes(form_of(e), c) + rest) == Some(
            (c, char_bytes(form_of(e), c).len() as int),
        ),
        1 <= char_bytes(form_of(e), c).len() <= 4,
{
    match form_of(e) {
        Form::Latin1 => {
            assert((char_bytes(Form::Latin1, c) + rest)[0] == c as u8);
        },
        Form::Utf8 => lemma_first_char_utf8(c, rest),
        _ => lemma_first_char_utf16(c, rest),
    }
}

/// Decoding the encoding of a text gives the text back, for every encoding
/// and every text whose code points it can hold.
pub proof fn lemma_encoding_round_trip(e: Encoding, s: Seq<u32>)
    requires
        all_encodable(e, s),
    ensures
        decoded(e, encoded(e, s)) == Some(s),
{
    lemma_chars_round_trip(e, s);
    if e == Encoding::UTF16 {
        let b = encoded(e, s);
        assert(b.subrange(2, b.len() as int) =~= str_bytes(Form::Utf16Be, s));
    }
}

proof fn lemma_chars_round_trip(e: Encoding, s: Seq<u32>)
    requires
        all_encodable(e, s),
    ensures
        chars_of(form_of(e), str_bytes(form_of(e), s)) == Some(s),
    decreases s.len(),
{
    let f = form_of(e);
    if s.len() == 0 {
        assert(str_bytes(f, s).len() == 0);
    } else {
        let t = s.subrange(1, s.len() as int);
        assert(all_encodable(e, t)) by {
            assert forall|i: int| 0 <= i < t.len() implies encodable(e, #[trigger] t[i]) by {
                assert(t[i] == s[i + 1]);
            }
        }
        assert(encodable(e, s[0]));
        lemma_chars_round_trip(e, t);
        let cb = char_bytes(f, s[0]);
        let b = str_bytes(f, s);
        lemma_first_char(e, s[0], str_bytes(f, t));
        assert(b.subrange(cb.len() as int, b.len() as int) =~= str_bytes(f, t));
        assert(seq![s[0]] + t =~= s);
    }
}

/// `o` with `p` put in front of the text it holds.
pub open spec fn prepend(p: Seq<u32>, o: Option<Seq<u32>>) -> Option<Seq<u32>> {
    match o {
        Some(t) => Some(p + t),
        None => None,
    }
}

fn push_char(f: Form, c: u32, out: &mut Vec<u8>)
    requires
        is_scalar(c),
        f == Form::Latin1 ==> c < 0x100,
    ensures
        final(out)@ == old(out)@ + char_bytes(f, c),
{
    let ghost start = out@;
    match f {
        Form::Latin1 => {
            out.push(c as u8);
        },
        Form::Utf8 => {
            if c < 0x80 {
                out.push(c as u8);
            } else if c < 0x800 {
                out.push((0xC0 + c / 0x40) as u8);
                out.push((0x80 + c % 0x40) as u8);
            } else if c < 0x1_0000 {
                out.push((0xE0 + c / 0x1000) as u8);
                out.push((0x80 + (c / 0x40) % 0x40) as u8);
                out.push((0x80 + c % 0x40) as u8);
            } else {
                out.push((0xF0 + c / 0x4_0000) as u8);
                out.push((0x80 + (c / 0x1000) % 0x40) as u8);
                out.push((0x80 + (c / 0x40) % 0x40) as u8);
                out.push((0x80 + c % 0x40) as u8);
            }
        },
        _ => {
            if c < 0x1_0000 {
                out.push((c / 0x100) as u8);
                out.push((c % 0x100) as u8);
            } else {
                let hi: u32 = 0xD800 + (c - 0x1_0000) / 0x400;
                let lo: u32 = 0xDC00 + (c - 0x1_0000) % 0x400;
                out.push((hi / 0x100) as u8);
                out.push((hi % 0x100) as u8);
                out.push((lo / 0x100) as u8);
                out.push((lo % 0x100) as u8);
            }
        },
    }
    assert(out@ =~= start + char_bytes(f, c));
}

/// Encodes `s` in `e`; fails where a code point cannot be written in it.
pub fn encode(e: Encoding, s: &[u32]) -> (r: Result<Vec<u8>, Error>)
    ensures
        r is Ok <==> all_encodable(e, s@),
        r is Ok ==> r->Ok_0@ == encoded(e, s@),
        r is Err ==> r->Err_0 == Error::InvalidInput,
{
    let f = match e {
        Encoding::Latin1 => Form::Latin1,
        Encoding::UTF8 => Form::Utf8,
        _ => Form::Utf16Be,
    };
    let mut out: Vec<u8> = Vec::new();
    let ghost head: Seq<u8> = Seq::empty();
    if e == Encoding::UTF16 {
        out.push(0xFE);
        out.push(0xFF);
        proof {
            head = seq![0xFEu8, 0xFFu8];
        }
    }
    assert(out@ =~= head);
    let n = s.len();
    let mut i: usize = 0;
    assert(s@.subrange(0, n as int) =~= s@);
    while i < n
        invariant
            i <= n,
            n == s@.len(),
            f == form_of(e),
            encoded(e, s@) == head + str_bytes(f, s@),
            out@ + str_bytes(f, s@.subrange(i as int, n as int)) == head + str_bytes(f, s@),
            forall|j: int| 0 <= j < i ==> encodable(e, #[trigger] s@[j]),
        decreases n - i,
    {
        let c = s[i];
        let ok = (c < 0xD800 || (0xE000 <= c && c < 0x11_0000)) && (e != Encoding::Latin1 || c
            < 0x100);
        if !ok {
            return Err(Error::InvalidInput);
        }
        let ghost t = s@.subrange(i as int, n as int);
        assert(t.subrange(1, t.len() as int) =~= s@.subrange(i + 1, n as int));
        let ghost before = out@;
        push_char(f, c, &mut out);
        assert(before + (char_bytes(f, c) + str_bytes(f, s@.subrange(i + 1, n as int))) =~= out@
            + str_bytes(f, s@.subrange(i + 1, n as int)));
        i = i + 1;
    }
    assert(str_bytes(f, s@.subrange(n as int, n as int)) =~= Seq::<u8>::empty());
    assert(out@ + Seq::<u8>::empty() =~= out@);
    Ok(out)
}

/// Whether an executable read of one code point agrees with `first_char`.
pub open spec fn same_read(r: Option<(u32, usize)>, s: Option<(u32, int)>) -> bool {
    match (r, s) {
        (Some((c, k)), Some((d, m))) => c == d && k == m,
        (None, None) => true,
        _ => false,
    }
}

fn read_char(f: Form, b: &[u8], i: usize) -> (r: Option<(u32, usize)>)
    requires
        i < b@.len(),
    ensures
        r is Some <==> first_char(f, b@.subrange(i as int, b@.len() as int)) is Some,
        same_read(r, first_char(f, b@.subrange(i as int, b@.len() as int))),
{
    let ghost w = b@.subrange(i as int, b@.len() as int);
    let n = b.len();
    let left = n - i;
    match f {
        Form::Latin1 => {
            assert(w[0] == b[i as int]);
            Some((b[i] as u32, 1))
        },
        Form::Utf8 => {
            let b0 = b[i];
            assert(w[0] == b0);
            if b0 < 0x80 {
                return Some((b0 as u32, 1));
            }
            if left >= 2 {
                assert(w[1] == b[i + 1]);
            }
            if left >= 3 {
                assert(w[2] == b[i + 2]);
            }
            if left >= 4 {
                assert(w[3] == b[i + 3]);
            }
            if left >= 2 && 0xC2 <= b0 && b0 < 0xE0 && 0x80 <= b[i + 1] && b[i + 1] < 0xC0 {
                Some((((b0 - 0xC0) as u32) * 0x40 + (b[i + 1] - 0x80) as u32, 2))
            } else if left >= 3 && 0xE0 <= b0 && b0 < 0xF0 && 0x80 <= b[i + 1] && b[i + 1] < 0xC0
                && 0x80 <= b[i + 2] && b[i + 2] < 0xC0 {
                let c: u32 = ((b0 - 0xE0) as u32) * 0x1000 + ((b[i + 1] - 0x80) as u32) * 0x40
                    + (b[i + 2] - 0x80) as u32;
                if c >= 0x800 && !(0xD800 <= c && c < 0xE000) {
                    Some((c, 3))
                } else {
                    None
                }
            } else if left >= 4 && 0xF0 <= b0 && b0 < 0xF5 && 0x80 <= b[i + 1] && b[i + 1] < 0xC0
                && 0x80 <= b[i + 2] && b[i + 2] < 0xC0 && 0x80 <= b[i + 3] && b[i + 3] < 0xC0 {
                let c: u32 = ((b0 - 0xF0) as u32) * 0x4_0000 + ((b[i + 1] - 0x80) as u32) * 0x1000
                    + ((b[i + 2] - 0x80) as u32) * 0x40 + (b[i + 3] - 0x80) as u32;
                if 0x1_0000 <= c && c < 0x11_0000 {
                    Some((c, 4))
                } else {
                    None
                }
            } else {
                None
            }
        },
        _ => {
            if left < 2 {
                return None;
            }
            assert(w[0] == b[i as int] && w[1] == b[i + 1]);
            let u: u32 = if f == Form::Utf16Le {
                (b[i + 1] as u32) * 0x100 + b[i] as u32
            } else {
                (b[i] as u32) * 0x100 + b[i + 1] as u32
            };
            if 0xD800 <= u && u < 0xDC00 {
                if left < 4 {
                    return None;
                }
                assert(w[2] == b[i + 2] && w[3] == b[i + 3]);
                let u2: u32 = if f == Form::Utf16Le {
                    (b[i + 3] as u32) * 0x100 + b[i + 2] as u32
                } else {
                    (b[i + 2] as u32) * 0x100 + b[i + 3] as u32
                };
                if 0xDC00 <= u2 && u2 < 0xE000 {
                    Some((0x1_0000 + (u - 0xD800) * 0x400 + (u2 - 0xDC00), 4))
                } else {
                    None
                }
            } else if 0xDC00 <= u && u < 0xE000 {
                None
            } else {
                Some((u, 2))
            }
        },
    }
}

fn decode_form(f: Form, b: &[u8], start: usize) -> (r: Option<Vec<u32>>)
    requires
        start <= b@.len(),
    ensures
        r is Some <==> chars_of(f, b@.subrange(start as int, b@.len() as int)) is Some,
        r is Some ==> r->0@ == chars_of(f, b@.subrange(start as int, b@.len() as int))->0,
{
    let n = b.len();
    let mut out: Vec<u32> = Vec::new();
    let mut i: usize = start;
    assert(out@ + Seq::<u32>::empty() =~= Seq::<u32>::empty());
    assert(prepend(out@, chars_of(f, b@.subrange(i as int, n as int))) == chars_of(f, b@.subrange(
        start as int,
        n as int,
    ))) by {
        match chars_of(f, b@.subrange(i as int, n as int)) {
            Some(t) => {
                assert(out@ + t =~= t);
            },
            None => {},
        }
    }
    while i < n
        invariant
            start <= i <= n,
            n == b@.len(),
            prepend(out@, chars_of(f, b@.subrange(i as int, n as int))) == chars_of(
                f,
                b@.subrange(start as int, n as int),
            ),
        decreases n - i,
    {
        let ghost w = b@.subrange(i as int, n as int);
        match read_char(f, b, i) {
            None => {
                return None;
            },
            Some((c, k)) => {
                if k < 1 || k > n - i {
                    return None;
                }
                let ghost rest = b@.subrange(i + k, n as int);
                assert(w.subrange(k as int, w.len() as int) =~= rest);
                let ghost before = out@;
                out.push(c);
                proof {
                    match chars_of(f, rest) {
                        Some(t) => {
                            assert(before + (seq![c] + t) =~= out@ + t);
                        },
                        None => {},
                    }
                }
                i = i + k;
            },
        }
    }
    assert(b@.subrange(n as int, n as int) =~= Seq::<u8>::empty());
    assert(out@ + Seq::<u32>::empty() =~= out@);
    Some(out)
}

/// Decodes the bytes `b` as text in `e`; fails where they are not valid in
/// it.
pub fn decode(e: Encoding, b: &[u8]) -> (r: Result<Vec<u32>, Error>)
    ensures
        r is Ok <==> decoded(e, b@) is Some,
        r is Ok ==> r->Ok_0@ == decoded(e, b@)->0,
        r is Err ==> r->Err_0 == Error::StringDecoding,
{
    assert(b@.subrange(0, b@.len() as int) =~= b@);
    let out = match e {
        Encoding::Latin1 => decode_form(Form::Latin1, b, 0),
        Encoding::UTF16BE => decode_form(Form::Utf16Be, b, 0),
        Encoding::UTF8 => decode_form(Form::Utf8, b, 0),
        Encoding::UTF16 => {
            if b.len() == 0 {
                Some(Vec::new())
            } else if b.len() >= 2 && b[0] == 0xFE && b[1] == 0xFF {
                decode_form(Form::Utf16Be, b, 2)
            } else if b.len() >= 2 && b[0] == 0xFF && b[1] == 0xFE {
                decode_form(Form::Utf16Le, b, 2)
            } else {
                None
            }
        },
    };
    match out {
        Some(v) => Ok(v),
        None => Err(Error::StringDecoding),
    }
}

} // verus!
