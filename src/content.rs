//! Frame payloads: the typed content of a frame and its wire layout.
use vstd::prelude::*;
use crate::encoding::{
    Encoding, all_encodable, decoded, encoded, encode, decode, lemma_encoding_round_trip,
};
use crate::error::Error;
use crate::bytes::{be_bytes, be_value, copy_range, lemma_be_round_trip, pow256, read_be, write_be};
use crate::terminated::{
    find_terminator, lemma_split_encoded, lemma_split_raw, no_nul, split_term, term_bytes, term_width,
};
use crate::version::Version;

verus! {

/// The payload of a frame.
#[derive(Clone, Debug)]
pub enum Content {
    /// A text-information frame: its encoding and its text as code points.
    Text(Encoding, Vec<u32>),
    /// A user-defined text frame: encoding, description and value.
    ExtendedText(Encoding, Vec<u32>, Vec<u32>),
    /// A user-defined link frame: encoding of the description, description,
    /// and the link in Latin1.
    ExtendedLink(Encoding, Vec<u32>, Vec<u32>),
    /// A comment or lyrics frame: encoding, three-byte language code as it
    /// stands, short description, and text.
    Comment(Encoding, Vec<u8>, Vec<u32>, Vec<u32>),
    /// An attached picture: encoding of the description, MIME type (a
    /// three-byte format code in ID3v2.2), picture type, description, and the
    /// image bytes.
    Picture(Encoding, Vec<u8>, u8, Vec<u32>, Vec<u8>),
    /// A popularimeter: the rater's email in Latin1, the rating, and the
    /// play counter.
    Popularimeter(Vec<u8>, u8, u64),
    /// A frame whose identifier has no known shape: its bytes, kept as they are.
    Unknown(Vec<u8>),
}

/// The mathematical value of a payload.
pub enum ContentModel {
    /// Encoding and text.
    Text(Encoding, Seq<u32>),
    /// Encoding, description and value.
    ExtendedText(Encoding, Seq<u32>, Seq<u32>),
    /// Encoding, description and link.
    ExtendedLink(Encoding, Seq<u32>, Seq<u32>),
    /// Encoding, language code, description and text.
    Comment(Encoding, Seq<u8>, Seq<u32>, Seq<u32>),
    /// Encoding, MIME type or format code, picture type, description, data.
    Picture(Encoding, Seq<u8>, u8, Seq<u32>, Seq<u8>),
    /// Email, rating and play counter.
    Popularimeter(Seq<u8>, u8, u64),
    /// Raw bytes.
    Unknown(Seq<u8>),
}

impl View for Content {
    type V = ContentModel;

    open spec fn view(&self) -> ContentModel {
        match self {
            Content::Text(e, t) => ContentModel::Text(*e, t@),
            Content::ExtendedText(e, d, x) => ContentModel::ExtendedText(*e, d@, x@),
            Content::ExtendedLink(e, d, x) => ContentModel::ExtendedLink(*e, d@, x@),
            Content::Comment(e, l, d, x) => ContentModel::Comment(*e, l@, d@, x@),
            Content::Picture(e, m, p, d, x) => ContentModel::Picture(*e, m@, *p, d@, x@),
            Content::Popularimeter(m, r, c) => ContentModel::Popularimeter(m@, *r, *c),
            Content::Unknown(b) => ContentModel::Unknown(b@),
        }
    }
}

/// The view of a result that holds a payload.
pub open spec fn content_result_view(r: Result<Content, Error>) -> Result<ContentModel, Error> {
    match r {
        Ok(c) => Ok(c@),
        Err(e) => Err(e),
    }
}

/// Whether the identifier `id` names a text-information frame: a
/// four-character identifier starting with `T`, other than `TXXX`.
pub open spec fn is_text_id(id: Seq<u8>) -> bool {
    &&& id.len() == 4
    &&& id[0] == 0x54
    &&& !(id[1] == 0x58 && id[2] == 0x58 && id[3] == 0x58)
}

/// Whether a revision allows an encoding: ID3v2.2 and ID3v2.3 only Latin1
/// and UTF-16 with a byte-order mark.
pub open spec fn encoding_allowed(v: Version, e: Encoding) -> bool {
    v == Version::Id3v24 || e == Encoding::Latin1 || e == Encoding::UTF16
}

/// The encoding byte of `e`.
pub open spec fn encoding_byte(e: Encoding) -> u8 {
    match e {
        Encoding::Latin1 => 0,
        Encoding::UTF16 => 1,
        Encoding::UTF16BE => 2,
        Encoding::UTF8 => 3,
    }
}

/// The encoding that the byte `x` names in revision `v`.
pub open spec fn encoding_of_byte(v: Version, x: u8) -> Option<Encoding> {
    if x == 0 {
        Some(Encoding::Latin1)
    } else if x == 1 {
        Some(Encoding::UTF16)
    } else if x == 2 && v == Version::Id3v24 {
        Some(Encoding::UTF16BE)
    } else if x == 3 && v == Version::Id3v24 {
        Some(Encoding::UTF8)
    } else {
        None
    }
}

/// Whether `id` is the four characters `a b c d`.
pub open spec fn id_is(id: Seq<u8>, a: u8, b: u8, c: u8, d: u8) -> bool {
    id == seq![a, b, c, d]
}

/// The user-defined text frame `TXXX`.
pub open spec fn is_txxx(id: Seq<u8>) -> bool {
    id_is(id, 0x54, 0x58, 0x58, 0x58)
}

/// The user-defined link frame `WXXX`.
pub open spec fn is_wxxx(id: Seq<u8>) -> bool {
    id_is(id, 0x57, 0x58, 0x58, 0x58)
}

/// The comment frame `COMM` and the lyrics frame `USLT`.
pub open spec fn is_comment_id(id: Seq<u8>) -> bool {
    id_is(id, 0x43, 0x4F, 0x4D, 0x4D) || id_is(id, 0x55, 0x53, 0x4C, 0x54)
}

/// The attached-picture frame `APIC`.
pub open spec fn is_picture_id(id: Seq<u8>) -> bool {
    id_is(id, 0x41, 0x50, 0x49, 0x43)
}

/// The popularimeter frame `POPM`.
pub open spec fn is_popm_id(id: Seq<u8>) -> bool {
    id_is(id, 0x50, 0x4F, 0x50, 0x4D)
}

/// Whether a payload has the shape that the identifier `id` calls for.
pub open spec fn fits_id(id: Seq<u8>, c: ContentModel) -> bool {
    match c {
        ContentModel::Text(_, _) => is_text_id(id),
        ContentModel::ExtendedText(_, _, _) => is_txxx(id),
        ContentModel::ExtendedLink(_, _, _) => is_wxxx(id),
        ContentModel::Comment(_, _, _, _) => is_comment_id(id),
        ContentModel::Picture(_, _, _, _, _) => is_picture_id(id),
        ContentModel::Popularimeter(_, _, _) => is_popm_id(id),
        ContentModel::Unknown(_) => !is_text_id(id) && !is_txxx(id) && !is_wxxx(id)
            && !is_comment_id(id) && !is_picture_id(id) && !is_popm_id(id),
    }
}

/// The description and the value that `b` holds: the description in `e` up
/// to its terminator, then the value in `ve` up to the end.
pub open spec fn pair_decoded(e: Encoding, ve: Encoding, b: Seq<u8>) -> Result<
    (Seq<u32>, Seq<u32>),
    Error,
> {
    match split_term(e, b) {
        None => Err(Error::Parsing),
        Some((d, x)) => match decoded(e, d) {
            None => Err(Error::StringDecoding),
            Some(ds) => match decoded(ve, x) {
                None => Err(Error::StringDecoding),
                Some(xs) => Ok((ds, xs)),
            },
        },
    }
}

/// Whether a description `d` in `e` and a value `x` in `ve` can be written.
pub open spec fn pair_writable(e: Encoding, ve: Encoding, d: Seq<u32>, x: Seq<u32>) -> bool {
    all_encodable(e, d) && no_nul(d) && all_encodable(ve, x)
}

/// The bytes of a description `d` in `e`, its terminator, and a value `x` in
/// `ve`.
pub open spec fn pair_encoded(e: Encoding, ve: Encoding, d: Seq<u32>, x: Seq<u32>) -> Seq<u8> {
    encoded(e, d) + term_bytes(e) + encoded(ve, x)
}

/// The encoding that the first byte of `b` names, where `b` has at least
/// `min` bytes.
pub open spec fn lead_encoding(v: Version, b: Seq<u8>, min: int) -> Option<Encoding> {
    if b.len() < min || b.len() == 0 { None } else { encoding_of_byte(v, b[0]) }
}

/// The payload that the body `b` of a frame with identifier `id` holds in
/// revision `v`. Every shape but the raw one starts with an encoding byte; a
/// comment then has a three-byte language code; a description ends with a
/// terminator; the last string runs to the end of the body.
#[verifier::opaque]
pub open spec fn content_decoded(v: Version, id: Seq<u8>, b: Seq<u8>) -> Result<
    ContentModel,
    Error,
> {
    if is_text_id(id) {
        match lead_encoding(v, b, 1) {
            None => Err(Error::Parsing),
            Some(e) => match decoded(e, b.subrange(1, b.len() as int)) {
                Some(t) => Ok(ContentModel::Text(e, t)),
                None => Err(Error::StringDecoding),
            },
        }
    } else if is_txxx(id) || is_wxxx(id) {
        match lead_encoding(v, b, 1) {
            None => Err(Error::Parsing),
            Some(e) => {
                let ve = if is_txxx(id) { e } else { Encoding::Latin1 };
                match pair_decoded(e, ve, b.subrange(1, b.len() as int)) {
                    Err(err) => Err(err),
                    Ok((d, x)) => if is_txxx(id) {
                        Ok(ContentModel::ExtendedText(e, d, x))
                    } else {
                        Ok(ContentModel::ExtendedLink(e, d, x))
                    },
                }
            },
        }
    } else if is_comment_id(id) {
        match lead_encoding(v, b, 4) {
            None => Err(Error::Parsing),
            Some(e) => match pair_decoded(e, e, b.subrange(4, b.len() as int)) {
                Err(err) => Err(err),
                Ok((d, x)) => Ok(ContentModel::Comment(e, b.subrange(1, 4), d, x)),
            },
        }
    } else if is_picture_id(id) {
        match lead_encoding(v, b, 1) {
            None => Err(Error::Parsing),
            Some(e) => picture_decoded(v, e, b.subrange(1, b.len() as int)),
        }
    } else if is_popm_id(id) {
        popm_decoded(b)
    } else {
        Ok(ContentModel::Unknown(b))
    }
}

/// The popularimeter that the body `b` holds: a Latin1 email up to a zero
/// byte, the rating byte, then a big-endian play counter of at most eight
/// bytes running to the end.
pub open spec fn popm_decoded(b: Seq<u8>) -> Result<ContentModel, Error> {
    match split_term(Encoding::Latin1, b) {
        None => Err(Error::Parsing),
        Some((m, r)) => if r.len() < 1 || r.len() > 9 {
            Err(Error::Parsing)
        } else {
            Ok(ContentModel::Popularimeter(m, r[0], be_value(r.subrange(1, r.len() as int)) as u64))
        },
    }
}

/// The width of the play counter as written: four bytes, or eight where the
/// count does not fit in four.
pub open spec fn counter_width(c: u64) -> nat {
    if c < 0x1_0000_0000 { 4 } else { 8 }
}

/// The picture that `b`, the body after the encoding byte `e`, holds.
pub open spec fn picture_decoded(v: Version, e: Encoding, b: Seq<u8>) -> Result<ContentModel, Error> {
    match mime_split(v, b) {
        None => Err(Error::Parsing),
        Some((m, r)) => if r.len() < 1 {
            Err(Error::Parsing)
        } else {
            match split_term(e, r.subrange(1, r.len() as int)) {
                None => Err(Error::Parsing),
                Some((d, data)) => match decoded(e, d) {
                    None => Err(Error::StringDecoding),
                    Some(ds) => Ok(ContentModel::Picture(e, m, r[0], ds, data)),
                },
            }
        },
    }
}

/// The MIME type at the start of `b` and what follows it: in ID3v2.2 a
/// three-byte format code, else Latin1 up to a zero byte.
pub open spec fn mime_split(v: Version, b: Seq<u8>) -> Option<(Seq<u8>, Seq<u8>)> {
    if v == Version::Id3v22 {
        if b.len() < 3 { None } else { Some((b.subrange(0, 3), b.subrange(3, b.len() as int))) }
    } else {
        split_term(Encoding::Latin1, b)
    }
}

/// Whether a MIME type can be written in revision `v`.
pub open spec fn mime_writable(v: Version, m: Seq<u8>) -> bool {
    if v == Version::Id3v22 { m.len() == 3 } else { forall|i: int| 0 <= i < m.len() ==> #[trigger] m[i] != 0 }
}

/// The bytes that write a MIME type in revision `v`.
pub open spec fn mime_encoded(v: Version, m: Seq<u8>) -> Seq<u8> {
    if v == Version::Id3v22 { m } else { m + seq![0u8] }
}

/// The encoding of a payload, where it has one.
pub open spec fn encoding_of(c: ContentModel) -> Option<Encoding> {
    match c {
        ContentModel::Text(e, _) => Some(e),
        ContentModel::ExtendedText(e, _, _) => Some(e),
        ContentModel::ExtendedLink(e, _, _) => Some(e),
        ContentModel::Comment(e, _, _, _) => Some(e),
        ContentModel::Picture(e, _, _, _, _) => Some(e),
        ContentModel::Popularimeter(_, _, _) => None,
        ContentModel::Unknown(_) => None,
    }
}

/// The body that writes the payload `c` in revision `v`, or why it cannot be
/// written there: an encoding the revision lacks, a code point the encoding
/// lacks, a description with a zero code point, or a language code that is
/// not three bytes.
#[verifier::opaque]
pub open spec fn content_encoded(v: Version, c: ContentModel) -> Result<Seq<u8>, Error> {
    if encoding_of(c) is Some && !encoding_allowed(v, encoding_of(c)->0) {
        Err(Error::UnsupportedFeature)
    } else {
        match c {
            ContentModel::Text(e, t) => if !all_encodable(e, t) {
                Err(Error::InvalidInput)
            } else {
                Ok(seq![encoding_byte(e)] + encoded(e, t))
            },
            ContentModel::ExtendedText(e, d, x) => if !pair_writable(e, e, d, x) {
                Err(Error::InvalidInput)
            } else {
                Ok(seq![encoding_byte(e)] + pair_encoded(e, e, d, x))
            },
            ContentModel::ExtendedLink(e, d, x) => if !pair_writable(e, Encoding::Latin1, d, x) {
                Err(Error::InvalidInput)
            } else {
                Ok(seq![encoding_byte(e)] + pair_encoded(e, Encoding::Latin1, d, x))
            },
            ContentModel::Comment(e, l, d, x) => if l.len() != 3 || !pair_writable(e, e, d, x) {
                Err(Error::InvalidInput)
            } else {
                Ok(seq![encoding_byte(e)] + l + pair_encoded(e, e, d, x))
            },
            ContentModel::Picture(e, m, p, d, x) => if !mime_writable(v, m) || !all_encodable(e, d)
                || !no_nul(d) {
                Err(Error::InvalidInput)
            } else {
                Ok(seq![encoding_byte(e)] + mime_encoded(v, m) + seq![p] + encoded(e, d) + term_bytes(e) + x)
            },
            ContentModel::Popularimeter(m, r, c) => if !mime_writable(Version::Id3v24, m) {
                Err(Error::InvalidInput)
            } else {
                Ok(m + seq![0u8, r] + be_bytes(c as nat, counter_width(c)))
            },
            ContentModel::Unknown(b) => Ok(b),
        }
    }
}

proof fn lemma_pair_round_trip(e: Encoding, ve: Encoding, d: Seq<u32>, x: Seq<u32>)
    requires
        pair_writable(e, ve, d, x),
    ensures
        pair_decoded(e, ve, pair_encoded(e, ve, d, x)) == Ok::<(Seq<u32>, Seq<u32>), Error>((d, x)),
{
    lemma_split_encoded(e, d, encoded(ve, x));
    lemma_encoding_round_trip(e, d);
    lemma_encoding_round_trip(ve, x);
}

proof fn lemma_byte_round_trip(v: Version, e: Encoding)
    requires
        encoding_allowed(v, e),
    ensures
        encoding_of_byte(v, encoding_byte(e)) == Some(e),
{
}

proof fn lemma_text_round_trip(v: Version, id: Seq<u8>, e: Encoding, t: Seq<u32>)
    requires
        is_text_id(id),
        encoding_allowed(v, e),
        all_encodable(e, t),
    ensures
        content_decoded(v, id, seq![encoding_byte(e)] + encoded(e, t)) == Ok::<ContentModel, Error>(
            ContentModel::Text(e, t),
        ),
{
    reveal(content_decoded);
    let b = seq![encoding_byte(e)] + encoded(e, t);
    assert(b.subrange(1, b.len() as int) =~= encoded(e, t));
    lemma_encoding_round_trip(e, t);
}

proof fn lemma_extended_round_trip(v: Version, id: Seq<u8>, e: Encoding, d: Seq<u32>, x: Seq<u32>)
    requires
        is_txxx(id) || is_wxxx(id),
        encoding_allowed(v, e),
        pair_writable(e, if is_txxx(id) { e } else { Encoding::Latin1 }, d, x),
    ensures
        content_decoded(
            v,
            id,
            seq![encoding_byte(e)] + pair_encoded(e, if is_txxx(id) { e } else { Encoding::Latin1 }, d, x),
        ) == Ok::<ContentModel, Error>(
            if is_txxx(id) {
                ContentModel::ExtendedText(e, d, x)
            } else {
                ContentModel::ExtendedLink(e, d, x)
            },
        ),
{
    reveal(content_decoded);
    let ve = if is_txxx(id) { e } else { Encoding::Latin1 };
    let b = seq![encoding_byte(e)] + pair_encoded(e, ve, d, x);
    assert(b.subrange(1, b.len() as int) =~= pair_encoded(e, ve, d, x));
    lemma_pair_round_trip(e, ve, d, x);
    assert(!is_text_id(id));
}

proof fn lemma_comment_round_trip(
    v: Version,
    id: Seq<u8>,
    e: Encoding,
    l: Seq<u8>,
    d: Seq<u32>,
    x: Seq<u32>,
)
    requires
        is_comment_id(id),
        encoding_allowed(v, e),
        l.len() == 3,
        pair_writable(e, e, d, x),
    ensures
        content_decoded(v, id, seq![encoding_byte(e)] + l + pair_encoded(e, e, d, x)) == Ok::<
            ContentModel,
            Error,
        >(ContentModel::Comment(e, l, d, x)),
{
    reveal(content_decoded);
    let b = seq![encoding_byte(e)] + l + pair_encoded(e, e, d, x);
    assert(b.subrange(4, b.len() as int) =~= pair_encoded(e, e, d, x));
    assert(b.subrange(1, 4) =~= l);
    lemma_pair_round_trip(e, e, d, x);
    assert(!is_text_id(id) && !is_txxx(id) && !is_wxxx(id));
}

#[verifier::rlimit(50)]
proof fn lemma_picture_round_trip(
    v: Version,
    id: Seq<u8>,
    e: Encoding,
    m: Seq<u8>,
    p: u8,
    d: Seq<u32>,
    x: Seq<u8>,
)
    requires
        is_picture_id(id),
        encoding_allowed(v, e),
        mime_writable(v, m),
        all_encodable(e, d),
        no_nul(d),
    ensures
        content_decoded(
            v,
            id,
            seq![encoding_byte(e)] + mime_encoded(v, m) + seq![p] + encoded(e, d) + term_bytes(e) + x,
        ) == Ok::<ContentModel, Error>(ContentModel::Picture(e, m, p, d, x)),
{
    let tail = encoded(e, d) + term_bytes(e) + x;
    let r = seq![p] + tail;
    let b = seq![encoding_byte(e)] + mime_encoded(v, m) + seq![p] + encoded(e, d) + term_bytes(e) + x;
    assert(b.subrange(1, b.len() as int) =~= mime_encoded(v, m) + r);
    if v == Version::Id3v22 {
        let w = mime_encoded(v, m) + r;
        assert(w.subrange(0, 3) =~= m);
        assert(w.subrange(3, w.len() as int) =~= r);
    } else {
        lemma_split_raw(Encoding::Latin1, m, r);
    }
    assert(r.subrange(1, r.len() as int) =~= tail);
    lemma_split_encoded(e, d, x);
    lemma_encoding_round_trip(e, d);
    assert(picture_decoded(v, e, b.subrange(1, b.len() as int)) == Ok::<ContentModel, Error>(
        ContentModel::Picture(e, m, p, d, x),
    ));
    lemma_decoded_picture(v, id, b);
}

proof fn lemma_decoded_picture(v: Version, id: Seq<u8>, b: Seq<u8>)
    requires
        is_picture_id(id),
    ensures
        content_decoded(v, id, b) == match lead_encoding(v, b, 1) {
            None => Err(Error::Parsing),
            Some(e) => picture_decoded(v, e, b.subrange(1, b.len() as int)),
        },
{
    assert(!is_text_id(id) && !is_txxx(id) && !is_wxxx(id) && !is_comment_id(id));
    reveal(content_decoded);
}

proof fn lemma_popm_round_trip(id: Seq<u8>, m: Seq<u8>, r: u8, c: u64)
    requires
        is_popm_id(id),
        mime_writable(Version::Id3v24, m),
    ensures
        forall|v: Version|
            content_decoded(v, id, m + seq![0u8, r] + be_bytes(c as nat, counter_width(c)))
                == Ok::<ContentModel, Error>(ContentModel::Popularimeter(m, r, c)),
{
    let k = counter_width(c);
    reveal_with_fuel(pow256, 9);
    lemma_be_round_trip(c as nat, k);
    let cnt = be_bytes(c as nat, k);
    let rest = seq![r] + cnt;
    let b = m + seq![0u8, r] + cnt;
    assert(b =~= m + seq![0u8] + rest);
    lemma_split_raw(Encoding::Latin1, m, rest);
    assert(rest.subrange(1, rest.len() as int) =~= cnt);
    assert(popm_decoded(b) == Ok::<ContentModel, Error>(ContentModel::Popularimeter(m, r, c)));
    assert(!is_text_id(id) && !is_txxx(id) && !is_wxxx(id) && !is_comment_id(id) && !is_picture_id(id));
    reveal(content_decoded);
}

/// Decoding the body that a payload is written as gives the payload back, in
/// every revision that can write it, for every shape.
pub proof fn lemma_content_round_trip(v: Version, id: Seq<u8>, c: ContentModel)
    requires
        fits_id(id, c),
        content_encoded(v, c) is Ok,
    ensures
        content_decoded(v, id, content_encoded(v, c)->Ok_0) == Ok::<ContentModel, Error>(c),
{
    reveal(content_encoded);
    match c {
        ContentModel::Text(e, t) => lemma_text_round_trip(v, id, e, t),
        ContentModel::ExtendedText(e, d, x) => lemma_extended_round_trip(v, id, e, d, x),
        ContentModel::ExtendedLink(e, d, x) => lemma_extended_round_trip(v, id, e, d, x),
        ContentModel::Comment(e, l, d, x) => lemma_comment_round_trip(v, id, e, l, d, x),
        ContentModel::Picture(e, m, p, d, x) => lemma_picture_round_trip(v, id, e, m, p, d, x),
        ContentModel::Popularimeter(m, r, c) => lemma_popm_round_trip(id, m, r, c),
        ContentModel::Unknown(_) => {
            reveal(content_decoded);
        },
    }
}

fn is_text_id_exec(id: &[u8]) -> (r: bool)
    ensures
        r == is_text_id(id@),
{
    id.len() == 4 && id[0] == 0x54 && !(id[1] == 0x58 && id[2] == 0x58 && id[3] == 0x58)
}

fn id_is_exec(id: &[u8], a: u8, b: u8, c: u8, d: u8) -> (r: bool)
    ensures
        r == id_is(id@, a, b, c, d),
{
    let r = id.len() == 4 && id[0] == a && id[1] == b && id[2] == c && id[3] == d;
    if r {
        assert(id@ =~= seq![a, b, c, d]);
    }
    r
}

fn encoding_from_byte(v: Version, x: u8) -> (r: Option<Encoding>)
    ensures
        r == encoding_of_byte(v, x),
{
    if x == 0 {
        Some(Encoding::Latin1)
    } else if x == 1 {
        Some(Encoding::UTF16)
    } else if x == 2 && v == Version::Id3v24 {
        Some(Encoding::UTF16BE)
    } else if x == 3 && v == Version::Id3v24 {
        Some(Encoding::UTF8)
    } else {
        None
    }
}

fn byte_of(e: Encoding) -> (r: u8)
    ensures
        r == encoding_byte(e),
{
    match e {
        Encoding::Latin1 => 0,
        Encoding::UTF16 => 1,
        Encoding::UTF16BE => 2,
        Encoding::UTF8 => 3,
    }
}

fn decode_pair(e: Encoding, ve: Encoding, b: &[u8]) -> (r: Result<(Vec<u32>, Vec<u32>), Error>)
    ensures
        r is Ok <==> pair_decoded(e, ve, b@) is Ok,
        r is Ok ==> r->Ok_0.0@ == pair_decoded(e, ve, b@)->Ok_0.0 && r->Ok_0.1@ == pair_decoded(
            e,
            ve,
            b@,
        )->Ok_0.1,
        r is Err ==> r->Err_0 == pair_decoded(e, ve, b@)->Err_0,
{
    let p = match find_terminator(e, b, 0) {
        Some(p) => p,
        None => {
            return Err(Error::Parsing);
        },
    };
    let w: usize = match e {
        Encoding::UTF16 | Encoding::UTF16BE => 2,
        _ => 1,
    };
    assert(w == term_width(e));
    proof {
        crate::terminated::lemma_find_term_bound(e, b@, 0);
    }
    let n = b.len();
    assert(p + w <= n);
    let d = copy_range(b, 0, p);
    let x = copy_range(b, p + w, n - p - w);
    let ds = match decode(e, d.as_slice()) {
        Ok(t) => t,
        Err(_) => {
            return Err(Error::StringDecoding);
        },
    };
    match decode(ve, x.as_slice()) {
        Ok(xs) => Ok((ds, xs)),
        Err(_) => Err(Error::StringDecoding),
    }
}

fn has_nul(d: &[u32]) -> (r: bool)
    ensures
        r == !no_nul(d@),
{
    let mut i: usize = 0;
    while i < d.len()
        invariant
            i <= d@.len(),
            forall|j: int| 0 <= j < i ==> d@[j] != 0,
        decreases d@.len() - i,
    {
        if d[i] == 0 {
            return true;
        }
        i = i + 1;
    }
    false
}

fn encode_pair(e: Encoding, ve: Encoding, d: &[u32], x: &[u32]) -> (r: Result<Vec<u8>, Error>)
    ensures
        r is Ok <==> pair_writable(e, ve, d@, x@),
        r is Ok ==> r->Ok_0@ == pair_encoded(e, ve, d@, x@),
        r is Err ==> r->Err_0 == Error::InvalidInput,
{
    if has_nul(d) {
        return Err(Error::InvalidInput);
    }
    let mut out = match encode(e, d) {
        Ok(b) => b,
        Err(_) => {
            return Err(Error::InvalidInput);
        },
    };
    out.push(0);
    match e {
        Encoding::UTF16 | Encoding::UTF16BE => out.push(0),
        _ => {},
    }
    let ghost head = out@;
    let mut tail = match encode(ve, x) {
        Ok(b) => b,
        Err(_) => {
            return Err(Error::InvalidInput);
        },
    };
    out.append(&mut tail);
    assert(out@ =~= pair_encoded(e, ve, d@, x@));
    Ok(out)
}

fn prefixed(x: u8, b: Vec<u8>) -> (r: Vec<u8>)
    ensures
        r@ == seq![x] + b@,
{
    let ghost start = b@;
    let mut out: Vec<u8> = Vec::new();
    out.push(x);
    let mut rest = b;
    out.append(&mut rest);
    assert(out@ =~= seq![x] + start);
    out
}

fn decode_popm(b: &[u8]) -> (r: Result<Content, Error>)
    ensures
        content_result_view(r) == popm_decoded(b@),
{
    let n = b.len();
    let p = match find_terminator(Encoding::Latin1, b, 0) {
        Some(p) => p,
        None => {
            return Err(Error::Parsing);
        },
    };
    proof {
        crate::terminated::lemma_find_term_bound(Encoding::Latin1, b@, 0);
    }
    let m = copy_range(b, 0, p);
    let r = copy_range(b, p + 1, n - p - 1);
    if r.len() < 1 || r.len() > 9 {
        return Err(Error::Parsing);
    }
    let cnt = copy_range(r.as_slice(), 1, r.len() - 1);
    let c = read_be(cnt.as_slice());
    Ok(Content::Popularimeter(m, r[0], c))
}

#[verifier::rlimit(50)]
fn decode_picture(v: Version, e: Encoding, b: &[u8]) -> (r: Result<Content, Error>)
    requires
        b@.len() >= 1,
    ensures
        content_result_view(r) == picture_decoded(v, e, b@.subrange(1, b@.len() as int)),
{
    let body = copy_range(b, 1, b.len() - 1);
    let n = body.len();
    let (mime, r) = if v == Version::Id3v22 {
        if n < 3 {
            return Err(Error::Parsing);
        }
        (copy_range(body.as_slice(), 0, 3), copy_range(body.as_slice(), 3, n - 3))
    } else {
        match find_terminator(Encoding::Latin1, body.as_slice(), 0) {
            None => {
                return Err(Error::Parsing);
            },
            Some(p) => {
                proof {
                    crate::terminated::lemma_find_term_bound(Encoding::Latin1, body@, 0);
                }
                (copy_range(body.as_slice(), 0, p), copy_range(body.as_slice(), p + 1, n - p - 1))
            },
        }
    };
    if r.len() < 1 {
        return Err(Error::Parsing);
    }
    let ptype = r[0];
    let rest = copy_range(r.as_slice(), 1, r.len() - 1);
    let p = match find_terminator(e, rest.as_slice(), 0) {
        Some(p) => p,
        None => {
            return Err(Error::Parsing);
        },
    };
    let w: usize = match e {
        Encoding::UTF16 | Encoding::UTF16BE => 2,
        _ => 1,
    };
    assert(w == term_width(e));
    proof {
        crate::terminated::lemma_find_term_bound(e, rest@, 0);
    }
    let m = rest.len();
    assert(p + w <= m);
    let d = copy_range(rest.as_slice(), 0, p);
    let data = copy_range(rest.as_slice(), p + w, m - p - w);
    match decode(e, d.as_slice()) {
        Ok(ds) => Ok(Content::Picture(e, mime, ptype, ds, data)),
        Err(_) => Err(Error::StringDecoding),
    }
}

/// Decodes the body `b` of a frame with identifier `id` in revision `v`.
#[verifier::rlimit(80)]
pub fn decode_content(v: Version, id: &[u8], b: &[u8]) -> (r: Result<Content, Error>)
    ensures
        content_result_view(r) == content_decoded(v, id@, b@),
{
    reveal(content_decoded);
    let text = is_text_id_exec(id);
    let txxx = id_is_exec(id, 0x54, 0x58, 0x58, 0x58);
    let wxxx = id_is_exec(id, 0x57, 0x58, 0x58, 0x58);
    let comm = id_is_exec(id, 0x43, 0x4F, 0x4D, 0x4D) || id_is_exec(id, 0x55, 0x53, 0x4C, 0x54);
    let pic = id_is_exec(id, 0x41, 0x50, 0x49, 0x43);
    let popm = id_is_exec(id, 0x50, 0x4F, 0x50, 0x4D);
    if popm && !text && !txxx && !wxxx && !comm && !pic {
        return decode_popm(b);
    }
    if !text && !txxx && !wxxx && !comm && !pic {
        let raw = copy_range(b, 0, b.len());
        assert(b@.subrange(0, b@.len() as int) =~= b@);
        return Ok(Content::Unknown(raw));
    }
    let min: usize = if comm && !text && !txxx && !wxxx { 4 } else { 1 };
    if b.len() < min || b.len() == 0 {
        return Err(Error::Parsing);
    }
    let e = match encoding_from_byte(v, b[0]) {
        Some(e) => e,
        None => {
            return Err(Error::Parsing);
        },
    };
    if text {
        let rest = copy_range(b, 1, b.len() - 1);
        match decode(e, rest.as_slice()) {
            Ok(t) => Ok(Content::Text(e, t)),
            Err(_) => Err(Error::StringDecoding),
        }
    } else if txxx || wxxx {
        let ve = if txxx { e } else { Encoding::Latin1 };
        let rest = copy_range(b, 1, b.len() - 1);
        match decode_pair(e, ve, rest.as_slice()) {
            Err(err) => Err(err),
            Ok((d, x)) => if txxx {
                Ok(Content::ExtendedText(e, d, x))
            } else {
                Ok(Content::ExtendedLink(e, d, x))
            },
        }
    } else if pic && !comm {
        decode_picture(v, e, b)
    } else {
        let lang = copy_range(b, 1, 3);
        let rest = copy_range(b, 4, b.len() - 4);
        match decode_pair(e, e, rest.as_slice()) {
            Err(err) => Err(err),
            Ok((d, x)) => Ok(Content::Comment(e, lang, d, x)),
        }
    }
}

/// Encodes the payload `c` as a frame body in revision `v`.
#[verifier::rlimit(80)]
pub fn encode_content(v: Version, c: &Content) -> (r: Result<Vec<u8>, Error>)
    ensures
        r is Ok <==> content_encoded(v, c@) is Ok,
        r is Ok ==> r->Ok_0@ == content_encoded(v, c@)->Ok_0,
        r is Err ==> r->Err_0 == content_encoded(v, c@)->Err_0,
{
    reveal(content_encoded);
    let enc = match c {
        Content::Text(e, _) => Some(*e),
        Content::ExtendedText(e, _, _) => Some(*e),
        Content::ExtendedLink(e, _, _) => Some(*e),
        Content::Comment(e, _, _, _) => Some(*e),
        Content::Picture(e, _, _, _, _) => Some(*e),
        Content::Popularimeter(_, _, _) => None,
        Content::Unknown(_) => None,
    };
    match enc {
        Some(e) => {
            if !(v == Version::Id3v24 || e == Encoding::Latin1 || e == Encoding::UTF16) {
                return Err(Error::UnsupportedFeature);
            }
        },
        None => {},
    }
    match c {
        Content::Text(e, t) => match encode(*e, t.as_slice()) {
            Err(err) => Err(err),
            Ok(bytes) => Ok(prefixed(byte_of(*e), bytes)),
        },
        Content::ExtendedText(e, d, x) => match encode_pair(*e, *e, d.as_slice(), x.as_slice()) {
            Err(err) => Err(err),
            Ok(bytes) => Ok(prefixed(byte_of(*e), bytes)),
        },
        Content::ExtendedLink(e, d, x) => match encode_pair(
            *e,
            Encoding::Latin1,
            d.as_slice(),
            x.as_slice(),
        ) {
            Err(err) => Err(err),
            Ok(bytes) => Ok(prefixed(byte_of(*e), bytes)),
        },
        Content::Comment(e, l, d, x) => {
            if l.len() != 3 {
                return Err(Error::InvalidInput);
            }
            match encode_pair(*e, *e, d.as_slice(), x.as_slice()) {
                Err(err) => Err(err),
                Ok(bytes) => {
                    let mut lang = l.clone();
                    let mut bytes = bytes;
                    lang.append(&mut bytes);
                    Ok(prefixed(byte_of(*e), lang))
                },
            }
        },
        Content::Picture(e, m, p, d, x) => {
            let mut out: Vec<u8> = Vec::new();
            out.push(byte_of(*e));
            if v == Version::Id3v22 {
                if m.len() != 3 {
                    return Err(Error::InvalidInput);
                }
            } else if has_zero_byte(m.as_slice()) {
                return Err(Error::InvalidInput);
            }
            let mut mime = m.clone();
            out.append(&mut mime);
            if v != Version::Id3v22 {
                out.push(0);
            }
            out.push(*p);
            if has_nul(d.as_slice()) {
                return Err(Error::InvalidInput);
            }
            let mut desc = match encode(*e, d.as_slice()) {
                Ok(b) => b,
                Err(_) => {
                    return Err(Error::InvalidInput);
                },
            };
            out.append(&mut desc);
            out.push(0);
            match e {
                Encoding::UTF16 | Encoding::UTF16BE => out.push(0),
                _ => {},
            }
            let mut data = x.clone();
            out.append(&mut data);
            assert(out@ =~= seq![encoding_byte(*e)] + mime_encoded(v, m@) + seq![*p] + encoded(*e, d@)
                + term_bytes(*e) + x@);
            Ok(out)
        },
        Content::Popularimeter(m, r, c) => {
            if has_zero_byte(m.as_slice()) {
                return Err(Error::InvalidInput);
            }
            let mut out = m.clone();
            out.push(0);
            out.push(*r);
            let k: usize = if *c < 0x1_0000_0000 { 4 } else { 8 };
            let mut cnt = write_be(*c, k);
            out.append(&mut cnt);
            assert(out@ =~= m@ + seq![0u8, *r] + be_bytes(*c as nat, counter_width(*c)));
            Ok(out)
        },
        Content::Unknown(b) => Ok(b.clone()),
    }
}

fn has_zero_byte(m: &[u8]) -> (r: bool)
    ensures
        r == !(forall|i: int| 0 <= i < m@.len() ==> #[trigger] m@[i] != 0),
{
    let mut i: usize = 0;
    while i < m.len()
        invariant
            i <= m@.len(),
            forall|j: int| 0 <= j < i ==> m@[j] != 0,
        decreases m@.len() - i,
    {
        if m[i] == 0 {
            return true;
        }
        i = i + 1;
    }
    false
}

} // verus!
