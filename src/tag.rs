//! A whole ID3v2 tag: its header, its frames, and its byte layout.
use vstd::prelude::*;
use crate::bytes::{copy_range, push_zeros, zero_bytes};
use crate::error::Error;
use crate::frame::{
    Frame, FrameModel, FrameStep, id_read, id_written, lemma_frame_round_trip,
    lemma_frame_round_trip_v22, encode_frame, frame_encoded, frame_result_view, frame_step,
    read_frame,
};
use crate::syncsafe::{
    SYNCSAFE_LIMIT, lemma_syncsafe_encode_decode, decode_syncsafe, encode_syncsafe, is_syncsafe, syncsafe_bytes, syncsafe_value,
};
use crate::unsync::{remove_unsync, unsync_removed};
use crate::content::fits_id;
use crate::version::Version;

verus! {

/// An ID3v2 tag.
#[derive(Clone, Debug)]
pub struct Tag {
    /// The revision the tag was read in or is meant for.
    pub version: Version,
    /// The frames, in order.
    pub frames: Vec<Frame>,
}

/// The mathematical value of a tag.
pub struct TagModel {
    pub version: Version,
    pub frames: Seq<FrameModel>,
}

impl View for Tag {
    type V = TagModel;

    open spec fn view(&self) -> TagModel {
        TagModel { version: self.version, frames: self.frames@.map_values(|f: Frame| f@) }
    }
}

/// The fixed ten-byte header of a tag, read.
#[derive(Clone, Copy, Debug, PartialEq, Eq, Structural)]
pub struct Header {
    /// The revision.
    pub version: Version,
    /// The flag byte.
    pub flags: u8,
    /// The declared size: what follows the header, without a footer.
    pub size: u32,
}

/// Whether `b` starts with the magic `ID3`.
pub open spec fn has_magic(b: Seq<u8>) -> bool {
    b.len() >= 3 && b[0] == 0x49 && b[1] == 0x44 && b[2] == 0x33
}

/// The header at the start of `b`: no tag without the magic, an unsupported
/// revision for a major version other than 2, 3 or 4, a parsing failure for a
/// size that is not syncsafe.
pub open spec fn header_of(b: Seq<u8>) -> Result<Header, Error> {
    if b.len() < 10 || !has_magic(b) {
        Err(Error::NoTag)
    } else if !(2 <= b[3] <= 4) {
        Err(Error::UnsupportedVersion)
    } else if !is_syncsafe(b.subrange(6, 10)) {
        Err(Error::Parsing)
    } else {
        Ok(
            Header {
                version: if b[3] == 2 {
                    Version::Id3v22
                } else if b[3] == 3 {
                    Version::Id3v23
                } else {
                    Version::Id3v24
                },
                flags: b[5],
                size: syncsafe_value(b.subrange(6, 10)) as u32,
            },
        )
    }
}

/// Whether the header flags of `h` say that a footer follows the tag.
pub open spec fn has_footer(h: Header) -> bool {
    h.version == Version::Id3v24 && h.flags & 0x10 != 0
}

/// Where the tag of header `h` ends: header, declared size, and footer.
pub open spec fn tag_end(h: Header) -> int {
    10 + h.size + if has_footer(h) { 10int } else { 0 }
}

/// What the frames in `b` hold, in order, or why the list cannot be read.
pub open spec fn frames_walk(v: Version, b: Seq<u8>) -> Result<Seq<Result<FrameModel, Error>>, Error>
    decreases b.len(),
{
    match frame_step(v, b) {
        FrameStep::End => Ok(Seq::empty()),
        FrameStep::Fatal(e) => Err(e),
        FrameStep::Next(k, r) => if 0 < k <= b.len() {
            match frames_walk(v, b.subrange(k, b.len() as int)) {
                Ok(rs) => Ok(seq![r] + rs),
                Err(e) => Err(e),
            }
        } else {
            Err(Error::Parsing)
        },
    }
}

/// The frames that were read.
pub open spec fn oks(rs: Seq<Result<FrameModel, Error>>) -> Seq<FrameModel>
    decreases rs.len(),
{
    if rs.len() == 0 {
        Seq::empty()
    } else {
        let p = oks(rs.drop_last());
        match rs.last() {
            Ok(f) => p.push(f),
            Err(_) => p,
        }
    }
}

/// Why the frames that were skipped could not be read.
pub open spec fn errs(rs: Seq<Result<FrameModel, Error>>) -> Seq<Error>
    decreases rs.len(),
{
    if rs.len() == 0 {
        Seq::empty()
    } else {
        let p = errs(rs.drop_last());
        match rs.last() {
            Ok(_) => p,
            Err(e) => p.push(e),
        }
    }
}

/// The part of the tag in `b` that holds the frames: the declared size after
/// the header, with unsynchronisation removed if flagged, and without an
/// extended header.
pub open spec fn frames_region(h: Header, b: Seq<u8>) -> Result<Seq<u8>, Error> {
    if b.len() < 10 + h.size {
        Err(Error::Parsing)
    } else {
        let r0 = b.subrange(10, 10 + h.size);
        let r1 = if h.flags & 0x80 != 0 { unsync_removed(r0) } else { r0 };
        if h.flags & 0x40 == 0 {
            Ok(r1)
        } else if h.version == Version::Id3v22 {
            Err(Error::UnsupportedFeature)
        } else if r1.len() < 4 {
            Err(Error::Parsing)
        } else {
            let ext = r1.subrange(0, 4);
            let skip = if h.version == Version::Id3v23 {
                Some(4 + crate::frame::be4(ext))
            } else if is_syncsafe(ext) {
                Some(syncsafe_value(ext))
            } else {
                None
            };
            match skip {
                Some(k) => if 4 <= k <= r1.len() {
                    Ok(r1.subrange(k, r1.len() as int))
                } else {
                    Err(Error::Parsing)
                },
                None => Err(Error::Parsing),
            }
        }
    }
}

/// What reading the tag at the start of `b` yields when frames that cannot be
/// read are skipped: the tag with the frames that were read, and why each
/// skipped one was skipped.
pub open spec fn tag_read_partial(b: Seq<u8>) -> Result<(TagModel, Seq<Error>), Error> {
    match header_of(b) {
        Err(e) => Err(e),
        Ok(h) => match frames_region(h, b) {
            Err(e) => Err(e),
            Ok(r) => match frames_walk(h.version, r) {
                Err(e) => Err(e),
                Ok(rs) => Ok((TagModel { version: h.version, frames: oks(rs) }, errs(rs))),
            },
        },
    }
}

/// What reading the tag at the start of `b` yields when any frame that
/// cannot be read fails the whole read, with the first such failure.
pub open spec fn tag_read(b: Seq<u8>) -> Result<TagModel, Error> {
    match tag_read_partial(b) {
        Err(e) => Err(e),
        Ok((t, es)) => if es.len() == 0 { Ok(t) } else { Err(es[0]) },
    }
}

/// The ten header bytes of a tag of revision `v` with declared size `n` and
/// no flags.
pub open spec fn header_bytes(v: Version, n: int) -> Seq<u8> {
    seq![0x49u8, 0x44u8, 0x33u8, v.major_spec(), 0u8, 0u8] + syncsafe_bytes(n)
}

/// The frames `fs` written one after another in revision `v`, or the first
/// reason one of them cannot be.
pub open spec fn frames_encoded(v: Version, fs: Seq<FrameModel>) -> Result<Seq<u8>, Error>
    decreases fs.len(),
{
    if fs.len() == 0 {
        Ok(Seq::empty())
    } else {
        match frames_encoded(v, fs.drop_last()) {
            Err(e) => Err(e),
            Ok(p) => match frame_encoded(v, fs.last()) {
                Err(e) => Err(e),
                Ok(x) => Ok(p + x),
            },
        }
    }
}

/// The tag of revision `v` with frames `fs` followed by `padding` zero bytes,
/// or why it cannot be written.
pub open spec fn tag_encoded(v: Version, fs: Seq<FrameModel>, padding: nat) -> Result<
    Seq<u8>,
    Error,
> {
    match frames_encoded(v, fs) {
        Err(e) => Err(e),
        Ok(body) => if body.len() + padding >= SYNCSAFE_LIMIT {
            Err(Error::InvalidInput)
        } else {
            Ok(header_bytes(v, (body.len() + padding) as int) + body + zero_bytes(padding))
        },
    }
}

/// `w` with the results `acc` put in front of what it holds.
pub open spec fn prepend_results(
    acc: Seq<Result<FrameModel, Error>>,
    w: Result<Seq<Result<FrameModel, Error>>, Error>,
) -> Result<Seq<Result<FrameModel, Error>>, Error> {
    match w {
        Ok(rs) => Ok(acc + rs),
        Err(e) => Err(e),
    }
}

/// Reads the header at the start of `b`.
pub fn read_header(b: &[u8]) -> (r: Result<Header, Error>)
    ensures
        r == header_of(b@),
{
    if b.len() < 10 || !(b[0] == 0x49 && b[1] == 0x44 && b[2] == 0x33) {
        return Err(Error::NoTag);
    }
    let version = match Version::from_major(b[3]) {
        Some(v) => v,
        None => {
            return Err(Error::UnsupportedVersion);
        },
    };
    match decode_syncsafe(b, 6) {
        None => Err(Error::Parsing),
        Some(size) => Ok(Header { version, flags: b[5], size }),
    }
}

/// Where the tag of header `h` ends.
pub fn end_of_tag(h: Header) -> (r: u64)
    ensures
        r == tag_end(h),
{
    let footer: u64 = if h.version == Version::Id3v24 && h.flags & 0x10 != 0 { 10 } else { 0 };
    10 + h.size as u64 + footer
}

fn read_frames_region(h: Header, b: &[u8]) -> (r: Result<Vec<u8>, Error>)
    ensures
        r is Ok <==> frames_region(h, b@) is Ok,
        r is Ok ==> r->Ok_0@ == frames_region(h, b@)->Ok_0,
        r is Err ==> r->Err_0 == frames_region(h, b@)->Err_0,
{
    if (b.len() as u64) < 10 + h.size as u64 {
        return Err(Error::Parsing);
    }
    let r0 = copy_range(b, 10, h.size as usize);
    let r1 = if h.flags & 0x80 != 0 { remove_unsync(r0.as_slice()) } else { r0 };
    if h.flags & 0x40 == 0 {
        return Ok(r1);
    }
    if h.version == Version::Id3v22 {
        return Err(Error::UnsupportedFeature);
    }
    if r1.len() < 4 {
        return Err(Error::Parsing);
    }
    let skip: u64 = if h.version == Version::Id3v23 {
        4 + (r1[0] as u64) * 0x100_0000 + (r1[1] as u64) * 0x1_0000 + (r1[2] as u64) * 0x100
            + r1[3] as u64
    } else {
        match decode_syncsafe(r1.as_slice(), 0) {
            Some(k) => k as u64,
            None => {
                return Err(Error::Parsing);
            },
        }
    };
    if skip < 4 || skip > r1.len() as u64 {
        return Err(Error::Parsing);
    }
    Ok(copy_range(r1.as_slice(), skip as usize, r1.len() - skip as usize))
}

fn walk_frames(v: Version, r: &[u8]) -> (out: Result<(Vec<Frame>, Vec<Error>), Error>)
    ensures
        out is Ok <==> frames_walk(v, r@) is Ok,
        out is Ok ==> out->Ok_0.0@.map_values(|f: Frame| f@) == oks(frames_walk(v, r@)->Ok_0)
            && out->Ok_0.1@ == errs(frames_walk(v, r@)->Ok_0),
        out is Err ==> out->Err_0 == frames_walk(v, r@)->Err_0,
{
    let n = r.len();
    let mut frames: Vec<Frame> = Vec::new();
    let mut skipped: Vec<Error> = Vec::new();
    let ghost mut acc: Seq<Result<FrameModel, Error>> = Seq::empty();
    let mut i: usize = 0;
    assert(r@.subrange(0, n as int) =~= r@);
    proof {
        match frames_walk(v, r@) {
            Ok(rs) => {
                assert(acc + rs =~= rs);
            },
            Err(_) => {},
        }
    }
    loop
        invariant
            i <= n,
            n == r@.len(),
            frames@.map_values(|f: Frame| f@) == oks(acc),
            skipped@ == errs(acc),
            frames_walk(v, r@) == prepend_results(acc, frames_walk(v, r@.subrange(i as int, n as int))),
        decreases n - i,
    {
        let ghost w = r@.subrange(i as int, n as int);
        match read_frame(v, r, i) {
            Err(e) => {
                return Err(e);
            },
            Ok(None) => {
                assert(acc + Seq::<Result<FrameModel, Error>>::empty() =~= acc);
                return Ok((frames, skipped));
            },
            Ok(Some((k, fr))) => {
                if k == 0 || k > n - i {
                    return Err(Error::Parsing);
                }
                let ghost x = frame_result_view(fr);
                let ghost old_acc = acc;
                proof {
                    lemma_walk_next(v, r@, i as int, k as int, x);
                    acc = acc.push(x);
                }
                match fr {
                    Ok(f) => {
                        let ghost before = frames@;
                        frames.push(f);
                        proof {
                            lemma_view_push(before, f);
                            lemma_oks_push(old_acc, x);
                        }
                    },
                    Err(e) => {
                        skipped.push(e);
                        proof {
                            lemma_oks_push(old_acc, x);
                        }
                    },
                }
                i = i + k;
            },
        }
    }
}

/// Reads the tag at the start of `b`, skipping the frames that cannot be
/// read: the tag with the frames that were read, and why each skipped frame
/// was skipped.
pub fn read_tag_partial(b: &[u8]) -> (r: Result<(Tag, Vec<Error>), Error>)
    ensures
        r is Ok <==> tag_read_partial(b@) is Ok,
        r is Ok ==> r->Ok_0.0@ == tag_read_partial(b@)->Ok_0.0 && r->Ok_0.1@ == tag_read_partial(
            b@,
        )->Ok_0.1,
        r is Err ==> r->Err_0 == tag_read_partial(b@)->Err_0,
{
    let h = match read_header(b) {
        Ok(h) => h,
        Err(e) => {
            return Err(e);
        },
    };
    let region = match read_frames_region(h, b) {
        Ok(x) => x,
        Err(e) => {
            return Err(e);
        },
    };
    match walk_frames(h.version, region.as_slice()) {
        Err(e) => Err(e),
        Ok((frames, skipped)) => Ok((Tag { version: h.version, frames }, skipped)),
    }
}

/// Reads the tag at the start of `b`; a frame that cannot be read fails the
/// whole read.
pub fn read_tag(b: &[u8]) -> (r: Result<Tag, Error>)
    ensures
        r is Ok <==> tag_read(b@) is Ok,
        r is Ok ==> r->Ok_0@ == tag_read(b@)->Ok_0,
        r is Err ==> r->Err_0 == tag_read(b@)->Err_0,
{
    match read_tag_partial(b) {
        Err(e) => Err(e),
        Ok((t, skipped)) => if skipped.len() == 0 {
            Ok(t)
        } else {
            Err(skipped[0])
        },
    }
}

/// Encodes a tag of revision `v` with the frames of `t`, followed by
/// `padding` zero bytes that the declared size covers.
pub fn encode_tag(t: &Tag, v: Version, padding: usize) -> (r: Result<Vec<u8>, Error>)
    ensures
        r is Ok <==> tag_encoded(v, t@.frames, padding as nat) is Ok,
        r is Ok ==> r->Ok_0@ == tag_encoded(v, t@.frames, padding as nat)->Ok_0,
        r is Err ==> r->Err_0 == tag_encoded(v, t@.frames, padding as nat)->Err_0,
{
    let ghost fs = t@.frames;
    let n = t.frames.len();
    let mut body: Vec<u8> = Vec::new();
    let mut i: usize = 0;
    assert(fs.subrange(0, 0) =~= Seq::<FrameModel>::empty());
    while i < n
        invariant
            i <= n,
            n == t.frames@.len(),
            fs == t@.frames,
            frames_encoded(v, fs.subrange(0, i as int)) == Ok::<Seq<u8>, Error>(body@),
        decreases n - i,
    {
        let ghost pre = fs.subrange(0, i + 1);
        assert(pre.drop_last() =~= fs.subrange(0, i as int));
        assert(pre.last() == t.frames@[i as int]@);
        match encode_frame(v, &t.frames[i]) {
            Err(e) => {
                proof {
                    lemma_encoded_prefix_err(v, fs, i + 1);
                }
                return Err(e);
            },
            Ok(mut x) => {
                body.append(&mut x);
            },
        }
        i = i + 1;
    }
    assert(fs.subrange(0, n as int) =~= fs);
    if body.len() >= 0x1000_0000 || padding >= 0x1000_0000 - body.len() {
        return Err(Error::InvalidInput);
    }
    let size = body.len() + padding;
    let mut out: Vec<u8> = Vec::new();
    out.push(0x49);
    out.push(0x44);
    out.push(0x33);
    out.push(v.major());
    out.push(0);
    out.push(0);
    let mut sz = encode_syncsafe(size as u32);
    out.append(&mut sz);
    assert(out@ =~= header_bytes(v, size as int));
    out.append(&mut body);
    push_zeros(&mut out, padding);
    Ok(out)
}

proof fn lemma_encoded_prefix_err(v: Version, fs: Seq<FrameModel>, i: int)
    requires
        0 < i <= fs.len(),
        frames_encoded(v, fs.subrange(0, i)) is Err,
    ensures
        frames_encoded(v, fs) == frames_encoded(v, fs.subrange(0, i)),
    decreases fs.len() - i,
{
    if i < fs.len() {
        let p = fs.subrange(0, i + 1);
        assert(p.drop_last() =~= fs.subrange(0, i));
        lemma_encoded_prefix_err(v, fs, i + 1);
    } else {
        assert(fs.subrange(0, i) =~= fs);
    }
}

proof fn lemma_walk_next(
    v: Version,
    b: Seq<u8>,
    i: int,
    k: int,
    x: Result<FrameModel, Error>,
)
    requires
        0 <= i <= b.len(),
        0 < k <= b.len() - i,
        frame_step(v, b.subrange(i, b.len() as int)) == FrameStep::Next(k, x),
    ensures
        forall|acc: Seq<Result<FrameModel, Error>>|
            prepend_results(acc, frames_walk(v, b.subrange(i, b.len() as int))) == prepend_results(
                #[trigger] acc.push(x),
                frames_walk(v, b.subrange(i + k, b.len() as int)),
            ),
{
    let w = b.subrange(i, b.len() as int);
    assert(w.subrange(k, w.len() as int) =~= b.subrange(i + k, b.len() as int));
    assert forall|acc: Seq<Result<FrameModel, Error>>|
        prepend_results(acc, frames_walk(v, w)) == prepend_results(
            #[trigger] acc.push(x),
            frames_walk(v, b.subrange(i + k, b.len() as int)),
        ) by {
        match frames_walk(v, b.subrange(i + k, b.len() as int)) {
            Ok(rs) => {
                assert(acc + (seq![x] + rs) =~= acc.push(x) + rs);
            },
            Err(_) => {},
        }
    }
}

proof fn lemma_view_push(s: Seq<Frame>, f: Frame)
    ensures
        s.push(f).map_values(|g: Frame| g@) == s.map_values(|g: Frame| g@).push(f@),
{
    assert(s.push(f).map_values(|g: Frame| g@) =~= s.map_values(|g: Frame| g@).push(f@));
}

proof fn lemma_oks_push(acc: Seq<Result<FrameModel, Error>>, x: Result<FrameModel, Error>)
    ensures
        oks(acc.push(x)) == match x {
            Ok(f) => oks(acc).push(f),
            Err(_) => oks(acc),
        },
        errs(acc.push(x)) == match x {
            Ok(_) => errs(acc),
            Err(e) => errs(acc).push(e),
        },
{
    assert(acc.push(x).drop_last() =~= acc);
}

/// Whether `f` reads back as itself once written in revision `v`: its
/// payload has the shape its identifier calls for; the identifier it is
/// written under does not start with a zero byte, which would read as
/// padding, and in ID3v2.2 reads back as its own; and it is not compressed,
/// as that inflating undoes deflating rests on the compression library alone.
pub open spec fn frame_readable(v: Version, f: FrameModel) -> bool {
    &&& fits_id(f.id, f.content)
    &&& f.id.len() > 0 && f.id[0] != 0
    &&& !f.flags.compression
    &&& v == Version::Id3v22 ==> id_written(v, f.id) is Some && id_written(v, f.id)->0.len() > 0
        && id_written(v, f.id)->0[0] != 0 && id_read(v, id_written(v, f.id)->0) == f.id
}

/// Whether every frame of `fs` reads back as itself once written in `v`.
pub open spec fn frames_readable(v: Version, fs: Seq<FrameModel>) -> bool {
    forall|i: int| 0 <= i < fs.len() ==> frame_readable(v, #[trigger] fs[i])
}

/// Each frame, read successfully.
pub open spec fn all_ok(fs: Seq<FrameModel>) -> Seq<Result<FrameModel, Error>> {
    fs.map_values(|f: FrameModel| Ok::<FrameModel, Error>(f))
}

proof fn lemma_frames_encoded_cons(v: Version, fs: Seq<FrameModel>)
    requires
        fs.len() > 0,
        frames_encoded(v, fs) is Ok,
    ensures
        frame_encoded(v, fs[0]) is Ok,
        frames_encoded(v, fs.subrange(1, fs.len() as int)) is Ok,
        frames_encoded(v, fs)->Ok_0 == frame_encoded(v, fs[0])->Ok_0 + frames_encoded(
            v,
            fs.subrange(1, fs.len() as int),
        )->Ok_0,
    decreases fs.len(),
{
    let p = fs.drop_last();
    if fs.len() == 1 {
        assert(p.len() == 0);
        assert(fs.subrange(1, fs.len() as int) =~= Seq::<FrameModel>::empty());
        assert(frames_encoded(v, fs)->Ok_0 =~= frame_encoded(v, fs[0])->Ok_0);
    } else {
        lemma_frames_encoded_cons(v, p);
        let t = fs.subrange(1, fs.len() as int);
        assert(t.drop_last() =~= p.subrange(1, p.len() as int));
        assert(t.last() == fs.last());
        assert(p[0] == fs[0]);
        assert(frames_encoded(v, fs)->Ok_0 =~= frame_encoded(v, fs[0])->Ok_0 + frames_encoded(v, t)->Ok_0);
    }
}

#[verifier::rlimit(100)]
proof fn lemma_walk_encoded(v: Version, fs: Seq<FrameModel>, pad: nat)
    requires
        frames_encoded(v, fs) is Ok,
        frames_readable(v, fs),
    ensures
        frames_walk(v, frames_encoded(v, fs)->Ok_0 + zero_bytes(pad)) == Ok::<
            Seq<Result<FrameModel, Error>>,
            Error,
        >(all_ok(fs)),
    decreases fs.len(),
{
    let b = frames_encoded(v, fs)->Ok_0 + zero_bytes(pad);
    if fs.len() == 0 {
        assert(b =~= zero_bytes(pad));
        if b.len() >= crate::frame::header_len(v) {
            assert(b[0] == 0 && b[1] == 0 && b[2] == 0 && b[3] == 0);
            assert(crate::frame::zeros_at_start(b, crate::frame::id_len(v)));
        }
        assert(all_ok(fs) =~= Seq::<Result<FrameModel, Error>>::empty());
    } else {
        lemma_frames_encoded_cons(v, fs);
        let t = fs.subrange(1, fs.len() as int);
        let x = frame_encoded(v, fs[0])->Ok_0;
        let tail = frames_encoded(v, t)->Ok_0 + zero_bytes(pad);
        assert(b =~= x + tail);
        assert(frames_readable(v, t)) by {
            assert forall|i: int| 0 <= i < t.len() implies frame_readable(v, #[trigger] t[i]) by {
                assert(t[i] == fs[i + 1]);
            }
        }
        assert(frame_readable(v, fs[0]));
        if v == Version::Id3v22 {
            lemma_frame_round_trip_v22(fs[0], tail);
        } else {
            lemma_frame_round_trip(v, fs[0], tail);
        }
        lemma_walk_encoded(v, t, pad);
        assert(b.subrange(x.len() as int, b.len() as int) =~= tail);
        assert(all_ok(fs) =~= seq![Ok::<FrameModel, Error>(fs[0])] + all_ok(t));
    }
}

proof fn lemma_oks_all(fs: Seq<FrameModel>)
    ensures
        oks(all_ok(fs)) == fs,
        errs(all_ok(fs)) == Seq::<Error>::empty(),
    decreases fs.len(),
{
    if fs.len() > 0 {
        lemma_oks_all(fs.drop_last());
        assert(all_ok(fs).drop_last() =~= all_ok(fs.drop_last()));
        assert(fs.drop_last().push(fs.last()) =~= fs);
    }
}

/// Reading back a written tag gives its revision and its frames in order, whatever padding follows them inside the tag and
/// whatever bytes follow the tag.
pub proof fn lemma_tag_round_trip(v: Version, fs: Seq<FrameModel>, pad: nat, rest: Seq<u8>)
    requires
        tag_encoded(v, fs, pad) is Ok,
        frames_readable(v, fs),
    ensures
        tag_read(tag_encoded(v, fs, pad)->Ok_0 + rest) == Ok::<TagModel, Error>(
            TagModel { version: v, frames: fs },
        ),
{
    let body = frames_encoded(v, fs)->Ok_0;
    let n = body.len() + pad;
    let t = tag_encoded(v, fs, pad)->Ok_0;
    let b = t + rest;
    lemma_syncsafe_encode_decode(n as int);
    assert(b.subrange(6, 10) =~= syncsafe_bytes(n as int));
    assert(b[0] == 0x49 && b[1] == 0x44 && b[2] == 0x33);
    assert(b[3] == v.major_spec() && b[5] == 0);
    let h = header_of(b)->Ok_0;
    assert(h.version == v && h.flags == 0 && h.size == n);
    assert(b.subrange(10, 10 + n as int) =~= body + zero_bytes(pad));
    assert(0u8 & 0x80 == 0 && 0u8 & 0x40 == 0) by (bit_vector);
    lemma_walk_encoded(v, fs, pad);
    lemma_oks_all(fs);
}

} // verus!
