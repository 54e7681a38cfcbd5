//! One frame: its header in each revision, its flags, and its body.
use vstd::prelude::*;
use crate::content::{
    Content, ContentModel, content_decoded, content_encoded, decode_content, encode_content, fits_id,
    lemma_content_round_trip,
};
use crate::bytes::copy_range;
use crate::compression::{deflate, deflated, inflate, inflated};
use crate::error::Error;
use crate::frame_id::{canonical_of, legacy_of, to_canonical, to_legacy};
use crate::syncsafe::{
    SYNCSAFE_LIMIT, lemma_syncsafe_encode_decode, decode_syncsafe, encode_syncsafe, is_syncsafe, syncsafe_bytes, syncsafe_value,
};
use crate::unsync::{apply_unsync, lemma_unsync_round_trip, remove_unsync, unsync_applied, unsync_removed};
use crate::version::Version;

verus! {

/// The flags of a frame. The grouping flag is carried by the frame's group
/// byte instead.
#[derive(Clone, Copy, Debug, PartialEq, Eq, Structural)]
pub struct FrameFlags {
    /// The frame is dropped if the tag is altered and the frame is unknown.
    pub tag_alter_preservation: bool,
    /// The frame is dropped if the audio is altered and the frame is unknown.
    pub file_alter_preservation: bool,
    /// The frame is meant to be read only.
    pub read_only: bool,
    /// The body is compressed.
    pub compression: bool,
    /// The body is encrypted.
    pub encryption: bool,
    /// The body is unsynchronised (ID3v2.4 only).
    pub unsynchronisation: bool,
    /// The body starts with a data-length indicator (ID3v2.4 only).
    pub data_length_indicator: bool,
}

/// A frame of a tag.
#[derive(Clone, Debug)]
pub struct Frame {
    /// The identifier: four characters, or three where an ID3v2.2 identifier
    /// has no four-character counterpart.
    pub id: Vec<u8>,
    /// The flags.
    pub flags: FrameFlags,
    /// The group byte, present where the grouping flag is set.
    pub group: Option<u8>,
    /// The payload.
    pub content: Content,
}

/// The mathematical value of a frame.
pub struct FrameModel {
    pub id: Seq<u8>,
    pub flags: FrameFlags,
    pub group: Option<u8>,
    pub content: ContentModel,
}

impl View for Frame {
    type V = FrameModel;

    open spec fn view(&self) -> FrameModel {
        FrameModel { id: self.id@, flags: self.flags, group: self.group, content: self.content@ }
    }
}

/// The view of a result that holds a frame.
pub open spec fn frame_result_view(r: Result<Frame, Error>) -> Result<FrameModel, Error> {
    match r {
        Ok(f) => Ok(f@),
        Err(e) => Err(e),
    }
}

/// The flags with none set.
pub open spec fn no_flags() -> FrameFlags {
    FrameFlags {
        tag_alter_preservation: false,
        file_alter_preservation: false,
        read_only: false,
        compression: false,
        encryption: false,
        unsynchronisation: false,
        data_length_indicator: false,
    }
}

/// The length of a frame header in revision `v`.
pub open spec fn header_len(v: Version) -> int {
    if v == Version::Id3v22 { 6 } else { 10 }
}

/// The length of a frame identifier in revision `v`.
pub open spec fn id_len(v: Version) -> int {
    if v == Version::Id3v22 { 3 } else { 4 }
}

/// Three bytes read as a big-endian number.
pub open spec fn be3(b: Seq<u8>) -> int {
    b[0] * 0x1_0000 + b[1] * 0x100 + b[2]
}

/// Four bytes read as a big-endian number.
pub open spec fn be4(b: Seq<u8>) -> int {
    b[0] * 0x100_0000 + b[1] * 0x1_0000 + b[2] * 0x100 + b[3]
}

/// The three big-endian bytes of `n`.
pub open spec fn be3_bytes(n: int) -> Seq<u8> {
    seq![(n / 0x1_0000 % 0x100) as u8, (n / 0x100 % 0x100) as u8, (n % 0x100) as u8]
}

/// The four big-endian bytes of `n`.
pub open spec fn be4_bytes(n: int) -> Seq<u8> {
    seq![
        (n / 0x100_0000 % 0x100) as u8,
        (n / 0x1_0000 % 0x100) as u8,
        (n / 0x100 % 0x100) as u8,
        (n % 0x100) as u8,
    ]
}

/// The body size that the frame header `h` declares, or `None` where an
/// ID3v2.4 size is not syncsafe.
pub open spec fn declared_size(v: Version, h: Seq<u8>) -> Option<int> {
    match v {
        Version::Id3v22 => Some(be3(h.subrange(3, 6))),
        Version::Id3v23 => Some(be4(h.subrange(4, 8))),
        Version::Id3v24 => if is_syncsafe(h.subrange(4, 8)) {
            Some(syncsafe_value(h.subrange(4, 8)))
        } else {
            None
        },
    }
}

/// The flags that the frame header `h` holds.
pub open spec fn flags_of(v: Version, h: Seq<u8>) -> FrameFlags {
    match v {
        Version::Id3v22 => no_flags(),
        Version::Id3v23 => FrameFlags {
            tag_alter_preservation: h[8] & 0x80 != 0,
            file_alter_preservation: h[8] & 0x40 != 0,
            read_only: h[8] & 0x20 != 0,
            compression: h[9] & 0x80 != 0,
            encryption: h[9] & 0x40 != 0,
            unsynchronisation: false,
            data_length_indicator: false,
        },
        Version::Id3v24 => FrameFlags {
            tag_alter_preservation: h[8] & 0x40 != 0,
            file_alter_preservation: h[8] & 0x20 != 0,
            read_only: h[8] & 0x10 != 0,
            compression: h[9] & 0x08 != 0,
            encryption: h[9] & 0x04 != 0,
            unsynchronisation: h[9] & 0x02 != 0,
            data_length_indicator: h[9] & 0x01 != 0,
        },
    }
}

/// Whether the frame header `h` sets the grouping flag.
pub open spec fn grouped(v: Version, h: Seq<u8>) -> bool {
    match v {
        Version::Id3v22 => false,
        Version::Id3v23 => h[9] & 0x20 != 0,
        Version::Id3v24 => h[9] & 0x40 != 0,
    }
}

/// The identifier under which a frame read with the raw identifier `raw` is
/// kept: ID3v2.2 identifiers become four-character ones where the table has
/// one.
pub open spec fn id_read(v: Version, raw: Seq<u8>) -> Seq<u8> {
    if v == Version::Id3v22 && canonical_of(raw) is Some {
        canonical_of(raw)->0
    } else {
        raw
    }
}

/// The frame that the header `h` and the data `d` that follows it hold. The
/// data is read in this order: unsynchronisation removed where flagged; the
/// decompressed size of an ID3v2.3 compressed frame skipped; the group byte
/// where grouped; the data-length indicator skipped where flagged; the rest
/// inflated where compressed, then decoded as the payload. An encrypted frame
/// is not supported; a body that does not inflate is a parsing failure.
pub open spec fn frame_decoded(v: Version, h: Seq<u8>, d: Seq<u8>) -> Result<FrameModel, Error> {
    let flags = flags_of(v, h);
    let id = id_read(v, h.subrange(0, id_len(v)));
    if flags.encryption {
        Err(Error::UnsupportedFeature)
    } else {
        let d0 = if flags.unsynchronisation { unsync_removed(d) } else { d };
        let skip = size_prefix_len(v, flags);
        if d0.len() < skip {
            Err(Error::Parsing)
        } else {
        let d1 = d0.subrange(skip, d0.len() as int);
        if grouped(v, h) && d1.len() < 1 {
            Err(Error::Parsing)
        } else {
            let group = if grouped(v, h) { Some(d1[0]) } else { None };
            let d2 = if grouped(v, h) { d1.subrange(1, d1.len() as int) } else { d1 };
            if flags.data_length_indicator && d2.len() < 4 {
                Err(Error::Parsing)
            } else {
                let d3 = if flags.data_length_indicator { d2.subrange(4, d2.len() as int) } else { d2 };
                let body = if flags.compression { inflated(d3) } else { Some(d3) };
                match body {
                    None => Err(Error::Parsing),
                    Some(x) => match content_decoded(v, id, x) {
                        Ok(c) => Ok(FrameModel { id, flags, group, content: c }),
                        Err(e) => Err(e),
                    },
                }
            }
        }
        }
    }
}

/// The length of the decompressed-size field that an ID3v2.3 compressed
/// frame carries before its other data.
pub open spec fn size_prefix_len(v: Version, flags: FrameFlags) -> int {
    if v == Version::Id3v23 && flags.compression { 4 } else { 0 }
}

/// What the frame list holds at the start of `b`.
pub enum FrameStep {
    /// The frames end here: padding, or too few bytes for a header.
    End,
    /// The frame header cannot be read; the tag is unreadable.
    Fatal(Error),
    /// A frame of `len` bytes in all, and what it holds.
    Next(int, Result<FrameModel, Error>),
}

/// Whether the first `n` bytes of `b` are all zero.
pub open spec fn zeros_at_start(b: Seq<u8>, n: int) -> bool {
    forall|i: int| 0 <= i < n ==> #[trigger] b[i] == 0
}

/// What the frame list holds at the start of `b` in revision `v`.
pub open spec fn frame_step(v: Version, b: Seq<u8>) -> FrameStep {
    let hl = header_len(v);
    if b.len() < hl || zeros_at_start(b, id_len(v)) {
        FrameStep::End
    } else {
        let h = b.subrange(0, hl);
        match declared_size(v, h) {
            None => FrameStep::Fatal(Error::Parsing),
            Some(n) => if hl + n > b.len() {
                FrameStep::Fatal(Error::Parsing)
            } else {
                FrameStep::Next(hl + n, frame_decoded(v, h, b.subrange(hl, hl + n)))
            },
        }
    }
}

/// The identifier under which a frame is written in revision `v`.
pub open spec fn id_written(v: Version, id: Seq<u8>) -> Option<Seq<u8>> {
    if v == Version::Id3v22 {
        if id.len() == 3 { Some(id) } else { legacy_of(id) }
    } else if id.len() == 4 {
        Some(id)
    } else {
        None
    }
}

/// A byte that is `m` where `b` holds and zero elsewhere.
pub open spec fn bit(b: bool, m: u8) -> u8 {
    if b { m } else { 0 }
}

/// The two flag bytes that write `f` and the grouping flag `g`.
pub open spec fn flag_bytes(v: Version, f: FrameFlags, g: bool) -> Seq<u8> {
    match v {
        Version::Id3v22 => Seq::empty(),
        Version::Id3v23 => seq![
            bit(f.tag_alter_preservation, 0x80) | bit(f.file_alter_preservation, 0x40) | bit(f.read_only, 0x20),
            bit(f.compression, 0x80) | bit(f.encryption, 0x40) | bit(g, 0x20),
        ],
        Version::Id3v24 => seq![
            bit(f.tag_alter_preservation, 0x40) | bit(f.file_alter_preservation, 0x20) | bit(f.read_only, 0x10),
            bit(g, 0x40) | bit(f.compression, 0x08) | bit(f.encryption, 0x04) | bit(f.unsynchronisation, 0x02)
                | bit(f.data_length_indicator, 0x01),
        ],
    }
}

/// Whether revision `v` can hold the flags and group of `f`.
pub open spec fn flags_writable(v: Version, f: FrameModel) -> bool {
    &&& !f.flags.encryption
    &&& v != Version::Id3v24 ==> !f.flags.unsynchronisation && !f.flags.data_length_indicator
    &&& v == Version::Id3v22 ==> f.flags == no_flags() && f.group is None
}

/// The largest body size plus one that a frame header of `v` can declare.
pub open spec fn size_limit(v: Version) -> int {
    match v {
        Version::Id3v22 => 0x100_0000,
        Version::Id3v23 => 0x1_0000_0000,
        Version::Id3v24 => SYNCSAFE_LIMIT as int,
    }
}

/// The bytes that declare the body size `n` in a frame header of `v`.
pub open spec fn size_bytes(v: Version, n: int) -> Seq<u8> {
    match v {
        Version::Id3v22 => be3_bytes(n),
        Version::Id3v23 => be4_bytes(n),
        Version::Id3v24 => syncsafe_bytes(n),
    }
}

/// The data after the header of `f`, once its body `c` is written: in
/// ID3v2.3 the decompressed size of a compressed frame, the group byte, the
/// data-length indicator, the body (deflated where compressed),
/// unsynchronised if flagged.
pub open spec fn frame_data(v: Version, f: FrameModel, c: Seq<u8>) -> Seq<u8> {
    let sz = if size_prefix_len(v, f.flags) == 4 { be4_bytes(c.len() as int) } else { Seq::empty() };
    let g = match f.group {
        Some(x) => seq![x],
        None => Seq::empty(),
    };
    let dli = if f.flags.data_length_indicator { syncsafe_bytes(c.len() as int) } else { Seq::empty() };
    let body = if f.flags.compression { deflated(c)->0 } else { c };
    let d = sz + g + dli + body;
    if f.flags.unsynchronisation { unsync_applied(Version::Id3v24, d) } else { d }
}

/// The bytes that write `f` in revision `v`, or why it cannot be written
/// there.
pub open spec fn frame_encoded(v: Version, f: FrameModel) -> Result<Seq<u8>, Error> {
    if !flags_writable(v, f) || id_written(v, f.id) is None {
        Err(Error::UnsupportedFeature)
    } else {
        match content_encoded(v, f.content) {
            Err(e) => Err(e),
            Ok(c) => if f.flags.data_length_indicator && c.len() >= SYNCSAFE_LIMIT
                || size_prefix_len(v, f.flags) == 4 && c.len() >= 0x1_0000_0000
                || f.flags.compression && deflated(c) is None {
                Err(Error::InvalidInput)
            } else {
                let d = frame_data(v, f, c);
                if d.len() >= size_limit(v) {
                    Err(Error::InvalidInput)
                } else {
                    Ok(id_written(v, f.id)->0 + size_bytes(v, d.len() as int) + flag_bytes(
                        v,
                        f.flags,
                        f.group is Some,
                    ) + d)
                }
            },
        }
    }
}

/// Whether an executable read of a frame agrees with `frame_step`.
pub open spec fn step_matches(r: Result<Option<(usize, Result<Frame, Error>)>, Error>, s: FrameStep) -> bool {
    match (r, s) {
        (Ok(None), FrameStep::End) => true,
        (Err(e), FrameStep::Fatal(e2)) => e == e2,
        (Ok(Some((k, f))), FrameStep::Next(k2, f2)) => k == k2 && frame_result_view(f) == f2,
        _ => false,
    }
}

fn flags_exec(v: Version, h: &[u8]) -> (r: FrameFlags)
    requires
        h@.len() == header_len(v),
    ensures
        r == flags_of(v, h@),
{
    match v {
        Version::Id3v22 => FrameFlags {
            tag_alter_preservation: false,
            file_alter_preservation: false,
            read_only: false,
            compression: false,
            encryption: false,
            unsynchronisation: false,
            data_length_indicator: false,
        },
        Version::Id3v23 => FrameFlags {
            tag_alter_preservation: h[8] & 0x80 != 0,
            file_alter_preservation: h[8] & 0x40 != 0,
            read_only: h[8] & 0x20 != 0,
            compression: h[9] & 0x80 != 0,
            encryption: h[9] & 0x40 != 0,
            unsynchronisation: false,
            data_length_indicator: false,
        },
        Version::Id3v24 => FrameFlags {
            tag_alter_preservation: h[8] & 0x40 != 0,
            file_alter_preservation: h[8] & 0x20 != 0,
            read_only: h[8] & 0x10 != 0,
            compression: h[9] & 0x08 != 0,
            encryption: h[9] & 0x04 != 0,
            unsynchronisation: h[9] & 0x02 != 0,
            data_length_indicator: h[9] & 0x01 != 0,
        },
    }
}

/// Decodes the frame whose header is `h` and whose data is `d`.
pub fn decode_frame(v: Version, h: &[u8], d: &[u8]) -> (r: Result<Frame, Error>)
    requires
        h@.len() == header_len(v),
    ensures
        frame_result_view(r) == frame_decoded(v, h@, d@),
{
    let flags = flags_exec(v, h);
    let idl: usize = if v == Version::Id3v22 { 3 } else { 4 };
    let raw = copy_range(h, 0, idl);
    let id = if v == Version::Id3v22 {
        match to_canonical(raw.as_slice()) {
            Some(c) => c,
            None => raw,
        }
    } else {
        raw
    };
    if flags.encryption {
        return Err(Error::UnsupportedFeature);
    }
    let d0 = if flags.unsynchronisation { remove_unsync(d) } else { copy_range(d, 0, d.len()) };
    assert(d@.subrange(0, d@.len() as int) =~= d@);
    let skip: usize = if v == Version::Id3v23 && flags.compression { 4 } else { 0 };
    if d0.len() < skip {
        return Err(Error::Parsing);
    }
    let d1 = copy_range(d0.as_slice(), skip, d0.len() - skip);
    let g = match v {
        Version::Id3v22 => false,
        Version::Id3v23 => h[9] & 0x20 != 0,
        Version::Id3v24 => h[9] & 0x40 != 0,
    };
    if g && d1.len() < 1 {
        return Err(Error::Parsing);
    }
    let group = if g { Some(d1[0]) } else { None };
    let d2 = if g { copy_range(d1.as_slice(), 1, d1.len() - 1) } else { d1 };
    if flags.data_length_indicator && d2.len() < 4 {
        return Err(Error::Parsing);
    }
    let d3 = if flags.data_length_indicator {
        copy_range(d2.as_slice(), 4, d2.len() - 4)
    } else {
        d2
    };
    let body = if flags.compression {
        match inflate(d3.as_slice()) {
            Some(x) => x,
            None => {
                return Err(Error::Parsing);
            },
        }
    } else {
        d3
    };
    match decode_content(v, id.as_slice(), body.as_slice()) {
        Ok(c) => Ok(Frame { id, flags, group, content: c }),
        Err(e) => Err(e),
    }
}

/// Reads the frame that starts at `at` in `b`: `None` where the frames end
/// there, else its length in bytes and the frame or why it is unreadable.
/// Fails where the header itself cannot be read.
#[verifier::rlimit(50)]
pub fn read_frame(v: Version, b: &[u8], at: usize) -> (r: Result<
    Option<(usize, Result<Frame, Error>)>,
    Error,
>)
    requires
        at <= b@.len(),
    ensures
        step_matches(r, frame_step(v, b@.subrange(at as int, b@.len() as int))),
{
    let ghost w = b@.subrange(at as int, b@.len() as int);
    let left = b.len() - at;
    let hl: usize = if v == Version::Id3v22 { 6 } else { 10 };
    if left < hl {
        return Ok(None);
    }
    let h = copy_range(b, at, hl);
    assert(h@ =~= w.subrange(0, hl as int));
    let zero_id = h[0] == 0 && h[1] == 0 && h[2] == 0 && (v == Version::Id3v22 || h[3] == 0);
    if zero_id {
        assert(zeros_at_start(w, id_len(v)));
        return Ok(None);
    }
    assert(w[0] == h[0] && w[1] == h[1] && w[2] == h[2] && w[3] == h[3]);
    let size: u64 = match v {
        Version::Id3v22 => (h[3] as u64) * 0x1_0000 + (h[4] as u64) * 0x100 + h[5] as u64,
        Version::Id3v23 => (h[4] as u64) * 0x100_0000 + (h[5] as u64) * 0x1_0000 + (h[6] as u64)
            * 0x100 + h[7] as u64,
        Version::Id3v24 => match decode_syncsafe(h.as_slice(), 4) {
            Some(n) => n as u64,
            None => {
                return Err(Error::Parsing);
            },
        },
    };
    assert(declared_size(v, h@) == Some(size as int)) by {
        if v == Version::Id3v22 {
            assert(h@.subrange(3, 6)[0] == h@[3]);
        }
    }
    if size > (left - hl) as u64 {
        return Err(Error::Parsing);
    }
    let d = copy_range(b, at + hl, size as usize);
    assert(d@ =~= w.subrange(hl as int, hl + size));
    let f = decode_frame(v, h.as_slice(), d.as_slice());
    Ok(Some((hl + size as usize, f)))
}

fn bit_exec(b: bool, m: u8) -> (r: u8)
    ensures
        r == bit(b, m),
{
    if b { m } else { 0 }
}

fn flag_bytes_exec(v: Version, f: FrameFlags, g: bool) -> (r: Vec<u8>)
    ensures
        r@ == flag_bytes(v, f, g),
{
    let mut r: Vec<u8> = Vec::new();
    match v {
        Version::Id3v22 => {},
        Version::Id3v23 => {
            r.push(bit_exec(f.tag_alter_preservation, 0x80) | bit_exec(f.file_alter_preservation, 0x40)
                | bit_exec(f.read_only, 0x20));
            r.push(bit_exec(f.compression, 0x80) | bit_exec(f.encryption, 0x40) | bit_exec(g, 0x20));
        },
        Version::Id3v24 => {
            r.push(bit_exec(f.tag_alter_preservation, 0x40) | bit_exec(f.file_alter_preservation, 0x20)
                | bit_exec(f.read_only, 0x10));
            r.push(bit_exec(g, 0x40) | bit_exec(f.compression, 0x08) | bit_exec(f.encryption, 0x04)
                | bit_exec(f.unsynchronisation, 0x02) | bit_exec(f.data_length_indicator, 0x01));
        },
    }
    assert(r@ =~= flag_bytes(v, f, g));
    r
}

fn size_bytes_exec(v: Version, n: usize) -> (r: Vec<u8>)
    requires
        n < size_limit(v),
    ensures
        r@ == size_bytes(v, n as int),
{
    match v {
        Version::Id3v24 => encode_syncsafe(n as u32),
        _ => {
            let m = n as u64;
            let mut r: Vec<u8> = Vec::new();
            if v == Version::Id3v23 {
                r.push((m / 0x100_0000 % 0x100) as u8);
            }
            r.push((m / 0x1_0000 % 0x100) as u8);
            r.push((m / 0x100 % 0x100) as u8);
            r.push((m % 0x100) as u8);
            assert(r@ =~= size_bytes(v, n as int));
            r
        },
    }
}

/// Encodes the frame `f` in revision `v`.
#[verifier::rlimit(100)]
pub fn encode_frame(v: Version, f: &Frame) -> (r: Result<Vec<u8>, Error>)
    ensures
        r is Ok <==> frame_encoded(v, f@) is Ok,
        r is Ok ==> r->Ok_0@ == frame_encoded(v, f@)->Ok_0,
        r is Err ==> r->Err_0 == frame_encoded(v, f@)->Err_0,
{
    let fl = f.flags;
    let plain = !fl.tag_alter_preservation && !fl.file_alter_preservation && !fl.read_only
        && !fl.compression && !fl.encryption && !fl.unsynchronisation && !fl.data_length_indicator;
    let writable = !fl.encryption && (v == Version::Id3v24
        || (!fl.unsynchronisation && !fl.data_length_indicator)) && (v != Version::Id3v22 || (plain
        && f.group.is_none()));
    assert(plain <==> fl == no_flags());
    if !writable {
        return Err(Error::UnsupportedFeature);
    }
    let id = if v == Version::Id3v22 {
        if f.id.len() == 3 {
            f.id.clone()
        } else {
            match to_legacy(f.id.as_slice()) {
                Some(l) => l,
                None => {
                    return Err(Error::UnsupportedFeature);
                },
            }
        }
    } else if f.id.len() == 4 {
        f.id.clone()
    } else {
        return Err(Error::UnsupportedFeature);
    };
    assert(id_written(v, f@.id) == Some(id@));
    let c = match encode_content(v, &f.content) {
        Ok(c) => c,
        Err(e) => {
            return Err(e);
        },
    };
    if fl.data_length_indicator && c.len() >= 0x1000_0000 {
        return Err(Error::InvalidInput);
    }
    let prefixed = v == Version::Id3v23 && fl.compression;
    if prefixed && c.len() as u64 >= 0x1_0000_0000 {
        return Err(Error::InvalidInput);
    }
    let packed = if fl.compression {
        match deflate(c.as_slice()) {
            Some(x) => x,
            None => {
                return Err(Error::InvalidInput);
            },
        }
    } else {
        c.clone()
    };
    let mut d: Vec<u8> = Vec::new();
    if prefixed {
        let m = c.len() as u64;
        d.push((m / 0x100_0000 % 0x100) as u8);
        d.push((m / 0x1_0000 % 0x100) as u8);
        d.push((m / 0x100 % 0x100) as u8);
        d.push((m % 0x100) as u8);
    }
    let ghost sz = if prefixed { be4_bytes(c@.len() as int) } else { Seq::<u8>::empty() };
    assert(d@ =~= sz);
    match f.group {
        Some(x) => d.push(x),
        None => {},
    }
    if fl.data_length_indicator {
        let mut dli = encode_syncsafe(c.len() as u32);
        d.append(&mut dli);
    }
    let mut body = packed;
    d.append(&mut body);
    let ghost g = match f.group {
        Some(x) => seq![x],
        None => Seq::<u8>::empty(),
    };
    let ghost dli_spec = if fl.data_length_indicator {
        syncsafe_bytes(c@.len() as int)
    } else {
        Seq::<u8>::empty()
    };
    let ghost body_spec = if fl.compression { deflated(c@)->0 } else { c@ };
    assert(d@ =~= sz + g + dli_spec + body_spec);
    if fl.unsynchronisation {
        if d.len() >= 0x1000_0000 {
            proof {
                crate::unsync::lemma_applied_len(Version::Id3v24, d@);
            }
            return Err(Error::InvalidInput);
        }
        d = apply_unsync(Version::Id3v24, d.as_slice());
    }
    assert(d@ == frame_data(v, f@, c@));
    let limit: u64 = match v {
        Version::Id3v22 => 0x100_0000,
        Version::Id3v23 => 0x1_0000_0000,
        Version::Id3v24 => 0x1000_0000,
    };
    if d.len() as u64 >= limit {
        return Err(Error::InvalidInput);
    }
    let mut out = id;
    let mut sz = size_bytes_exec(v, d.len());
    out.append(&mut sz);
    let mut fb = flag_bytes_exec(v, fl, f.group.is_some());
    out.append(&mut fb);
    out.append(&mut d);
    Ok(out)
}

proof fn lemma_bits3(x: u8, y: u8, z: u8, mx: u8, my: u8, mz: u8)
    requires
        (mx == 0x80 && my == 0x40 && mz == 0x20) || (mx == 0x40 && my == 0x20 && mz == 0x10),
        x == 0 || x == mx,
        y == 0 || y == my,
        z == 0 || z == mz,
    ensures
        ((x | y | z) & mx != 0) == (x == mx),
        ((x | y | z) & my != 0) == (y == my),
        ((x | y | z) & mz != 0) == (z == mz),
{
    assert(((x | y | z) & mx != 0) == (x == mx) && ((x | y | z) & my != 0) == (y == my) && ((x | y
        | z) & mz != 0) == (z == mz)) by (bit_vector)
        requires
            (mx == 0x80 && my == 0x40 && mz == 0x20) || (mx == 0x40 && my == 0x20 && mz == 0x10),
            x == 0 || x == mx,
            y == 0 || y == my,
            z == 0 || z == mz;
}

proof fn lemma_bits5(g: u8, c: u8, e: u8, u: u8, d: u8)
    requires
        g == 0 || g == 0x40,
        c == 0 || c == 0x08,
        e == 0 || e == 0x04,
        u == 0 || u == 0x02,
        d == 0 || d == 0x01,
    ensures
        ((g | c | e | u | d) & 0x40 != 0) == (g == 0x40),
        ((g | c | e | u | d) & 0x08 != 0) == (c == 0x08),
        ((g | c | e | u | d) & 0x04 != 0) == (e == 0x04),
        ((g | c | e | u | d) & 0x02 != 0) == (u == 0x02),
        ((g | c | e | u | d) & 0x01 != 0) == (d == 0x01),
{
    assert(((g | c | e | u | d) & 0x40 != 0) == (g == 0x40) && ((g | c | e | u | d) & 0x08 != 0)
        == (c == 0x08) && ((g | c | e | u | d) & 0x04 != 0) == (e == 0x04) && ((g | c | e | u | d)
        & 0x02 != 0) == (u == 0x02) && ((g | c | e | u | d) & 0x01 != 0) == (d == 0x01))
        by (bit_vector)
        requires
            g == 0 || g == 0x40,
            c == 0 || c == 0x08,
            e == 0 || e == 0x04,
            u == 0 || u == 0x02,
            d == 0 || d == 0x01;
}

proof fn lemma_flags_read_back(v: Version, f: FrameFlags, g: bool, h: Seq<u8>)
    requires
        v != Version::Id3v22,
        h.len() == 10,
        h.subrange(8, 10) == flag_bytes(v, f, g),
        v == Version::Id3v23 ==> !f.unsynchronisation && !f.data_length_indicator,
    ensures
        flags_of(v, h) == f,
        grouped(v, h) == g,
{
    let fb = flag_bytes(v, f, g);
    assert(h[8] == fb[0] && h[9] == fb[1]);
    if v == Version::Id3v23 {
        lemma_bits3(bit(f.tag_alter_preservation, 0x80), bit(f.file_alter_preservation, 0x40), bit(f.read_only, 0x20), 0x80, 0x40, 0x20);
        lemma_bits3(bit(f.compression, 0x80), bit(f.encryption, 0x40), bit(g, 0x20), 0x80, 0x40, 0x20);
    } else {
        lemma_bits3(bit(f.tag_alter_preservation, 0x40), bit(f.file_alter_preservation, 0x20), bit(f.read_only, 0x10), 0x40, 0x20, 0x10);
        lemma_bits5(bit(g, 0x40), bit(f.compression, 0x08), bit(f.encryption, 0x04), bit(f.unsynchronisation, 0x02), bit(f.data_length_indicator, 0x01));
    }
}

proof fn lemma_size_read_back(v: Version, n: int, h: Seq<u8>)
    requires
        v != Version::Id3v22,
        0 <= n < size_limit(v),
        h.len() == 10,
        h.subrange(4, 8) == size_bytes(v, n),
    ensures
        declared_size(v, h) == Some(n),
{
    if v == Version::Id3v24 {
        lemma_syncsafe_encode_decode(n);
    } else {
        let b = be4_bytes(n);
        let (q1, q2, q3) = (n / 0x100, n / 0x1_0000, n / 0x100_0000);
        assert(be4(b) == n) by (nonlinear_arith)
            requires
                b[0] == (n / 0x100_0000 % 0x100) as u8, b[1] == (n / 0x1_0000 % 0x100) as u8,
                b[2] == (n / 0x100 % 0x100) as u8, b[3] == (n % 0x100) as u8,
                be4(b) == b[0] * 0x100_0000 + b[1] * 0x1_0000 + b[2] * 0x100 + b[3],
                0 <= n < 0x1_0000_0000;
    }
}

proof fn lemma_frame_data_read_back(v: Version, f: FrameModel, h: Seq<u8>, c: Seq<u8>)
    requires
        v != Version::Id3v22,
        h.len() == 10,
        flags_of(v, h) == f.flags,
        grouped(v, h) == (f.group is Some),
        h.subrange(0, 4) == f.id,
        !f.flags.compression && !f.flags.encryption,
        content_decoded(v, f.id, c) == Ok::<ContentModel, Error>(f.content),
    ensures
        frame_decoded(v, h, frame_data(v, f, c)) == Ok::<FrameModel, Error>(f),
{
    let g = match f.group {
        Some(x) => seq![x],
        None => Seq::<u8>::empty(),
    };
    let dli = if f.flags.data_length_indicator { syncsafe_bytes(c.len() as int) } else { Seq::empty() };
    let d0 = g + dli + c;
    assert(Seq::<u8>::empty() + g + dli + c =~= d0);
    if f.flags.unsynchronisation {
        lemma_unsync_round_trip(Version::Id3v24, d0);
    }
    assert(d0.subrange(0, d0.len() as int) =~= d0);
    let d2 = if f.group is Some { d0.subrange(1, d0.len() as int) } else { d0 };
    assert(d2 =~= dli + c);
    let d3 = if f.flags.data_length_indicator { d2.subrange(4, d2.len() as int) } else { d2 };
    assert(d3 =~= c);
    if f.group is Some {
        assert(d0[0] == f.group->0);
    }
    assert(id_read(v, h.subrange(0, id_len(v))) == f.id);
}

#[verifier::rlimit(100)]
proof fn lemma_frame_header_read_back(v: Version, f: FrameModel, d: Seq<u8>, rest: Seq<u8>)
    requires
        v != Version::Id3v22,
        f.id.len() == 4,
        f.id[0] != 0,
        0 <= d.len() < size_limit(v),
        v == Version::Id3v23 ==> !f.flags.unsynchronisation && !f.flags.data_length_indicator,
    ensures
        ({
            let b = f.id + size_bytes(v, d.len() as int) + flag_bytes(v, f.flags, f.group is Some) + d
                + rest;
            let h = b.subrange(0, 10);
            &&& h.subrange(0, 4) == f.id
            &&& flags_of(v, h) == f.flags
            &&& grouped(v, h) == (f.group is Some)
            &&& frame_step(v, b) == FrameStep::Next(10 + d.len() as int, frame_decoded(v, h, d))
        }),
{
    let b = f.id + size_bytes(v, d.len() as int) + flag_bytes(v, f.flags, f.group is Some) + d + rest;
    let h = b.subrange(0, 10);
    assert(h.subrange(0, 4) =~= f.id);
    assert(h.subrange(4, 8) =~= size_bytes(v, d.len() as int));
    assert(h.subrange(8, 10) =~= flag_bytes(v, f.flags, f.group is Some));
    assert(b[0] == f.id[0]);
    assert(!zeros_at_start(b, id_len(v)));
    lemma_size_read_back(v, d.len() as int, h);
    lemma_flags_read_back(v, f.flags, f.group is Some, h);
    assert(b.subrange(10, 10 + d.len() as int) =~= d);
}

/// Reading a frame back from the bytes it is written as gives the frame, in
/// ID3v2.3 and ID3v2.4, whatever follows it: its identifier, flags, group
/// byte and payload, through the data-length indicator and per-frame
/// unsynchronisation. Compressed frames are left out: that inflating undoes
/// deflating rests on the compression library alone.
pub proof fn lemma_frame_round_trip(v: Version, f: FrameModel, rest: Seq<u8>)
    requires
        v != Version::Id3v22,
        !f.flags.compression,
        frame_encoded(v, f) is Ok,
        fits_id(f.id, f.content),
        f.id[0] != 0,
    ensures
        frame_step(v, frame_encoded(v, f)->Ok_0 + rest) == FrameStep::Next(
            frame_encoded(v, f)->Ok_0.len() as int,
            Ok::<FrameModel, Error>(f),
        ),
{
    let c = content_encoded(v, f.content)->Ok_0;
    let d = frame_data(v, f, c);
    let enc = frame_encoded(v, f)->Ok_0;
    assert(enc == f.id + size_bytes(v, d.len() as int) + flag_bytes(v, f.flags, f.group is Some) + d);
    lemma_frame_header_read_back(v, f, d, rest);
    let h = (enc + rest).subrange(0, 10);
    lemma_content_round_trip(v, f.id, f.content);
    lemma_frame_data_read_back(v, f, h, c);
}

/// Reading an ID3v2.2 frame back from the bytes it is written as gives the
/// frame, whatever follows it, where the identifier it is written under reads
/// back as the frame's own.
#[verifier::rlimit(100)]
pub proof fn lemma_frame_round_trip_v22(f: FrameModel, rest: Seq<u8>)
    requires
        frame_encoded(Version::Id3v22, f) is Ok,
        fits_id(f.id, f.content),
        id_written(Version::Id3v22, f.id)->0[0] != 0,
        id_read(Version::Id3v22, id_written(Version::Id3v22, f.id)->0) == f.id,
    ensures
        frame_step(Version::Id3v22, frame_encoded(Version::Id3v22, f)->Ok_0 + rest) == FrameStep::Next(
            frame_encoded(Version::Id3v22, f)->Ok_0.len() as int,
            Ok::<FrameModel, Error>(f),
        ),
{
    let v = Version::Id3v22;
    let c = content_encoded(v, f.content)->Ok_0;
    let d = frame_data(v, f, c);
    let lid = id_written(v, f.id)->0;
    assert(lid.len() == 3) by {
        if f.id.len() != 3 {
            crate::frame_id::lemma_legacy_of_len(f.id);
        }
    }
    let enc = frame_encoded(v, f)->Ok_0;
    assert(enc == lid + be3_bytes(d.len() as int) + Seq::<u8>::empty() + d);
    let b = enc + rest;
    let h = b.subrange(0, 6);
    assert(h.subrange(0, 3) =~= lid);
    let n = d.len() as int;
    assert(h.subrange(3, 6) =~= be3_bytes(n));
    assert(be3(be3_bytes(n)) == n) by (nonlinear_arith)
        requires
            be3_bytes(n)[0] == (n / 0x1_0000 % 0x100) as u8,
            be3_bytes(n)[1] == (n / 0x100 % 0x100) as u8,
            be3_bytes(n)[2] == (n % 0x100) as u8,
            be3(be3_bytes(n)) == be3_bytes(n)[0] * 0x1_0000 + be3_bytes(n)[1] * 0x100 + be3_bytes(n)[2],
            0 <= n < 0x100_0000;
    assert(b[0] == lid[0]);
    assert(!zeros_at_start(b, id_len(v)));
    assert(b.subrange(6, 6 + n) =~= d);
    assert(d =~= c);
    assert(c.subrange(0, c.len() as int) =~= c);
    lemma_content_round_trip(v, f.id, f.content);
}

} // verus!
