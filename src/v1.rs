//! ID3v1: the fixed 128-byte tag at the end of a file.
use vstd::prelude::*;
use crate::content::{Content, ContentModel};
use crate::encoding::Encoding;
use crate::error::Error;
use crate::genre::{genre_name, genre_points, latin1_points, until_nul};
use crate::frame::{Frame, FrameFlags, FrameModel, no_flags};
use crate::tag::{Tag, TagModel};
use crate::version::Version;

verus! {

/// The length of an ID3v1 tag.
pub const V1_LEN: usize = 128;

/// Whether `file` ends with an ID3v1 tag: 128 bytes starting with `TAG`.
pub open spec fn has_v1(file: Seq<u8>) -> bool {
    let s = file.len() - 128;
    file.len() >= 128 && file[s] == 0x54 && file[s + 1] == 0x41 && file[s + 2] == 0x47
}

/// Whether `file` ends with an ID3v1 tag.
pub fn is_v1_candidate(file: &[u8]) -> (r: bool)
    ensures
        r == has_v1(file@),
{
    let n = file.len();
    n >= V1_LEN && file[n - 128] == 0x54 && file[n - 127] == 0x41 && file[n - 126] == 0x47
}

/// Removes the ID3v1 tag at the end of `file`, if there is one, and says
/// whether there was.
pub fn remove_v1(file: &mut Vec<u8>) -> (r: bool)
    ensures
        r == has_v1(old(file)@),
        r ==> final(file)@ == old(file)@.subrange(0, old(file)@.len() - 128),
        !r ==> final(file)@ == old(file)@,
{
    if is_v1_candidate(file.as_slice()) {
        let n = file.len();
        file.truncate(n - V1_LEN);
        true
    } else {
        false
    }
}

/// The text of the field of `len` bytes at `off` of the ID3v1 tag of `file`.
pub open spec fn v1_field(file: Seq<u8>, off: int, len: int) -> Seq<u32> {
    let s = file.len() - 128 + off;
    until_nul(file.subrange(s, s + len)).map_values(|b: u8| b as u32)
}

/// A Latin1 text frame with no flags.
pub open spec fn text_model(id: Seq<u8>, t: Seq<u32>) -> FrameModel {
    FrameModel {
        id,
        flags: no_flags(),
        group: None,
        content: ContentModel::Text(Encoding::Latin1, t),
    }
}

/// `fs` with a text frame of `t` added, unless `t` is empty.
pub open spec fn push_text(fs: Seq<FrameModel>, id: Seq<u8>, t: Seq<u32>) -> Seq<FrameModel> {
    if t.len() == 0 { fs } else { fs.push(text_model(id, t)) }
}

/// The frames that stand for the ID3v1 tag of `file`: title, artist, album
/// and year where they are not empty, and the genre's name where the genre
/// number has one.
pub open spec fn v1_frames(file: Seq<u8>) -> Seq<FrameModel> {
    let fs = push_text(Seq::empty(), seq![0x54u8, 0x49u8, 0x54u8, 0x32u8], v1_field(file, 3, 30));
    let fs = push_text(fs, seq![0x54u8, 0x50u8, 0x45u8, 0x31u8], v1_field(file, 33, 30));
    let fs = push_text(fs, seq![0x54u8, 0x41u8, 0x4Cu8, 0x42u8], v1_field(file, 63, 30));
    let fs = push_text(fs, seq![0x54u8, 0x59u8, 0x45u8, 0x52u8], v1_field(file, 93, 4));
    let g = file[file.len() - 1];
    match genre_name(g) {
        Some(name) => fs.push(text_model(seq![0x54u8, 0x43u8, 0x4Fu8, 0x4Eu8], latin1_points(name))),
        None => fs,
    }
}

/// What reading the ID3v1 tag of `file` yields.
pub open spec fn v1_read(file: Seq<u8>) -> Result<TagModel, Error> {
    if has_v1(file) {
        Ok(TagModel { version: Version::Id3v24, frames: v1_frames(file) })
    } else {
        Err(Error::NoTag)
    }
}

fn field_exec(file: &[u8], off: usize, len: usize) -> (r: Vec<u32>)
    requires
        file@.len() >= 128,
        off + len <= 128,
    ensures
        r@ == v1_field(file@, off as int, len as int),
{
    let s = file.len() - 128 + off;
    let ghost w = file@.subrange(s as int, s + len);
    let mut r: Vec<u32> = Vec::new();
    let mut k: usize = 0;
    let n = file.len();
    assert(w.subrange(0, len as int) =~= w);
    assert(r@ + until_nul(w).map_values(|b: u8| b as u32) =~= until_nul(w).map_values(|b: u8| b as u32));
    while k < len && file[s + k] != 0
        invariant
            k <= len,
            n == file@.len(),
            s + len <= file@.len(),
            w == file@.subrange(s as int, s + len),
            r@ + until_nul(w.subrange(k as int, len as int)).map_values(|b: u8| b as u32)
                == until_nul(w).map_values(|b: u8| b as u32),
        decreases len - k,
    {
        let ghost t = w.subrange(k as int, len as int);
        assert(t.subrange(1, t.len() as int) =~= w.subrange(k + 1, len as int));
        let ghost rest = until_nul(w.subrange(k + 1, len as int)).map_values(|b: u8| b as u32);
        let ghost before = r@;
        r.push(file[s + k] as u32);
        assert((seq![t[0]] + until_nul(t.subrange(1, t.len() as int))).map_values(|b: u8| b as u32)
            =~= seq![file@[s + k] as u32] + rest);
        assert(before + (seq![file@[s + k] as u32] + rest) =~= r@ + rest);
        k = k + 1;
    }
    let ghost t = w.subrange(k as int, len as int);
    assert(until_nul(t).map_values(|b: u8| b as u32) =~= Seq::<u32>::empty());
    assert(r@ + Seq::<u32>::empty() =~= r@);
    r
}

fn text_frame(a: u8, b: u8, c: u8, d: u8, t: Vec<u32>) -> (r: Frame)
    ensures
        r@ == text_model(seq![a, b, c, d], t@),
{
    let mut id: Vec<u8> = Vec::new();
    id.push(a);
    id.push(b);
    id.push(c);
    id.push(d);
    assert(id@ =~= seq![a, b, c, d]);
    Frame {
        id,
        flags: FrameFlags {
            tag_alter_preservation: false,
            file_alter_preservation: false,
            read_only: false,
            compression: false,
            encryption: false,
            unsynchronisation: false,
            data_length_indicator: false,
        },
        group: None,
        content: Content::Text(Encoding::Latin1, t),
    }
}

fn push_text_exec(fs: &mut Vec<Frame>, a: u8, b: u8, c: u8, d: u8, t: Vec<u32>)
    ensures
        final(fs)@.map_values(|f: Frame| f@) == push_text(
            old(fs)@.map_values(|f: Frame| f@),
            seq![a, b, c, d],
            t@,
        ),
{
    if t.len() > 0 {
        let f = text_frame(a, b, c, d, t);
        fs.push(f);
        assert(fs@.map_values(|f: Frame| f@) =~= old(fs)@.map_values(|f: Frame| f@).push(f@));
    }
}

/// Reads the ID3v1 tag at the end of `file` as a tag of text frames.
pub fn read_v1(file: &[u8]) -> (r: Result<Tag, Error>)
    ensures
        r is Ok <==> v1_read(file@) is Ok,
        r is Ok ==> r->Ok_0@ == v1_read(file@)->Ok_0,
        r is Err ==> r->Err_0 == Error::NoTag,
{
    if !is_v1_candidate(file) {
        return Err(Error::NoTag);
    }
    let mut fs: Vec<Frame> = Vec::new();
    assert(fs@.map_values(|f: Frame| f@) =~= Seq::<FrameModel>::empty());
    push_text_exec(&mut fs, 0x54, 0x49, 0x54, 0x32, field_exec(file, 3, 30));
    push_text_exec(&mut fs, 0x54, 0x50, 0x45, 0x31, field_exec(file, 33, 30));
    push_text_exec(&mut fs, 0x54, 0x41, 0x4C, 0x42, field_exec(file, 63, 30));
    push_text_exec(&mut fs, 0x54, 0x59, 0x45, 0x52, field_exec(file, 93, 4));
    let g = file[file.len() - 1];
    match genre_points(g) {
        Some(name) => {
            let f = text_frame(0x54, 0x43, 0x4F, 0x4E, name);
            let ghost before = fs@;
            fs.push(f);
            assert(fs@.map_values(|f: Frame| f@) =~= before.map_values(|f: Frame| f@).push(f@));
        },
        None => {},
    }
    Ok(Tag { version: Version::Id3v24, frames: fs })
}

} // verus!
