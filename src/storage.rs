//! The tag region of a file held in memory: where it ends, and replacing it
//! with another of a different length while the audio after it is kept.
use vstd::prelude::*;
use crate::bytes::push_zeros;
use crate::error::Error;
use crate::frame::FrameModel;
use crate::tag::{Tag, encode_tag, end_of_tag, frames_encoded, header_of, read_header, tag_encoded, tag_end};
use crate::version::Version;

verus! {

/// Where the ID3v2 tag at the start of `file` ends: zero where there is none;
/// a failure where its header is unreadable or it runs past the file's end.
pub open spec fn region_end(file: Seq<u8>) -> Result<int, Error> {
    match header_of(file) {
        Err(Error::NoTag) => Ok(0),
        Err(e) => Err(e),
        Ok(h) => if tag_end(h) <= file.len() { Ok(tag_end(h)) } else { Err(Error::Parsing) },
    }
}

/// `file` with its first `end` bytes replaced by `tag`.
pub open spec fn spliced(file: Seq<u8>, end: int, tag: Seq<u8>) -> Seq<u8> {
    tag + file.subrange(end, file.len() as int)
}

/// The length of the frames of `fs` written in `v`, header included.
pub open spec fn unpadded_len(v: Version, fs: Seq<FrameModel>) -> int {
    10 + frames_encoded(v, fs)->Ok_0.len() as int
}

/// The padding that a tag of frames `fs` gets where the old region ends at
/// `end`: what fills the old region, or none where the tag does not fit.
pub open spec fn padding_for(v: Version, fs: Seq<FrameModel>, end: int) -> nat {
    if unpadded_len(v, fs) <= end { (end - unpadded_len(v, fs)) as nat } else { 0 }
}

/// The bytes of the tag of revision `v` with frames `fs` that replaces the
/// tag region of `file`, padded to fill that region where it fits, or why it
/// cannot be written.
pub open spec fn written_tag(file: Seq<u8>, v: Version, fs: Seq<FrameModel>) -> Result<Seq<u8>, Error> {
    match region_end(file) {
        Err(e) => Err(e),
        Ok(end) => match frames_encoded(v, fs) {
            Err(e) => Err(e),
            Ok(_) => tag_encoded(v, fs, padding_for(v, fs, end)),
        },
    }
}

/// The file after a tag of revision `v` with frames `fs` is written into
/// `file`, or why it cannot be.
pub open spec fn written(file: Seq<u8>, v: Version, fs: Seq<FrameModel>) -> Result<Seq<u8>, Error> {
    match written_tag(file, v, fs) {
        Err(e) => Err(e),
        Ok(t) => Ok(spliced(file, region_end(file)->Ok_0, t)),
    }
}

/// Where the tag region of `file` ends.
pub fn find_region_end(file: &[u8]) -> (r: Result<usize, Error>)
    ensures
        r is Ok <==> region_end(file@) is Ok,
        r is Ok ==> r->Ok_0 == region_end(file@)->Ok_0,
        r is Err ==> r->Err_0 == region_end(file@)->Err_0,
{
    match read_header(file) {
        Err(Error::NoTag) => Ok(0),
        Err(e) => Err(e),
        Ok(h) => {
            let end = end_of_tag(h);
            if end <= file.len() as u64 {
                Ok(end as usize)
            } else {
                Err(Error::Parsing)
            }
        },
    }
}

/// Replaces the first `end` bytes of `file` by `tag`. The bytes after `end`
/// are moved in place: back to front where the file grows, front to back
/// where it shrinks.
pub fn splice(file: &mut Vec<u8>, end: usize, tag: &[u8])
    requires
        end <= old(file)@.len(),
        tag@.len() <= end || old(file)@.len() - end + tag@.len() <= usize::MAX,
    ensures
        final(file)@ == spliced(old(file)@, end as int, tag@),
{
    let ghost orig = file@;
    let n = file.len();
    let t = tag.len();
    if t > end {
        let d = t - end;
        push_zeros(file, d);
        let m = file.len();
        let mut j: usize = m;
        while j > t
            invariant
                t <= j <= m,
                m == n + d,
                d == t - end,
                n == orig.len(),
                end <= n,
                file@.len() == m,
                forall|k: int| 0 <= k < j ==> k < n ==> #[trigger] file@[k] == orig[k],
                forall|k: int| j <= k < m ==> #[trigger] file@[k] == orig[k - d],
            decreases j,
        {
            let x = file[j - 1 - d];
            file[j - 1] = x;
            j = j - 1;
        }
    } else if t < end {
        let d = end - t;
        let mut j: usize = t;
        while j < n - d
            invariant
                t <= j <= n - d,
                d == end - t,
                n == orig.len(),
                end <= n,
                file@.len() == n,
                forall|k: int| j <= k < n ==> #[trigger] file@[k] == orig[k],
                forall|k: int| t <= k < j ==> #[trigger] file@[k] == orig[k + d],
            decreases n - d - j,
        {
            let x = file[j + d];
            file[j] = x;
            j = j + 1;
        }
        file.truncate(n - d);
    }
    let mut k: usize = 0;
    while k < t
        invariant
            k <= t,
            t == tag@.len(),
            n == orig.len(),
            end <= n,
            file@.len() == n - end + t,
            forall|i: int| 0 <= i < k ==> #[trigger] file@[i] == tag@[i],
            forall|i: int| t <= i < file@.len() ==> #[trigger] file@[i] == orig[i - t + end],
        decreases t - k,
    {
        file[k] = tag[k];
        k = k + 1;
    }
    assert(file@ =~= spliced(orig, end as int, tag@));
}

/// Writes a tag of revision `v` with the frames of `t` at the start of
/// `file`, in place of any tag there. A tag that fits in the old region is
/// padded with zeros to fill it, so nothing after the region moves; a larger
/// one moves what follows the region forward by the difference. Returns the
/// length of the tag written. On failure the file is left as it was.
pub fn write_tag(file: &mut Vec<u8>, t: &Tag, v: Version) -> (r: Result<usize, Error>)
    requires
        old(file)@.len() <= usize::MAX - 0x1000_0010,
    ensures
        r is Ok <==> written(old(file)@, v, t@.frames) is Ok,
        r is Ok ==> r->Ok_0 == written_tag(old(file)@, v, t@.frames)->Ok_0.len(),
        r is Ok ==> final(file)@ == written(old(file)@, v, t@.frames)->Ok_0,
        r is Err ==> r->Err_0 == written(old(file)@, v, t@.frames)->Err_0 && final(file)@ == old(
            file,
        )@,
{
    let end = match find_region_end(file.as_slice()) {
        Ok(e) => e,
        Err(e) => {
            return Err(e);
        },
    };
    let unpadded = match encode_tag(t, v, 0) {
        Ok(b) => b,
        Err(e) => {
            return Err(e);
        },
    };
    let padding: usize = if unpadded.len() <= end { end - unpadded.len() } else { 0 };
    let bytes = if padding == 0 {
        unpadded
    } else {
        match encode_tag(t, v, padding) {
            Ok(b) => b,
            Err(e) => {
                return Err(e);
            },
        }
    };
    let len = bytes.len();
    splice(file, end, bytes.as_slice());
    Ok(len)
}

/// Writing a tag never touches what follows the old tag region. A tag that
/// fits leaves the file's length and every byte from the region's end on as
/// they were; a larger one leaves those bytes as they were, moved forward by
/// exactly the difference between the new tag's length and the old region's.
pub proof fn lemma_write_keeps_payload(file: Seq<u8>, v: Version, fs: Seq<FrameModel>)
    requires
        written(file, v, fs) is Ok,
    ensures
        ({
            let end = region_end(file)->Ok_0;
            let out = written(file, v, fs)->Ok_0;
            let len = unpadded_len(v, fs);
            &&& 0 <= end <= file.len()
            &&& len <= end ==> out.len() == file.len() && out.subrange(end, out.len() as int)
                == file.subrange(end, file.len() as int)
            &&& len > end ==> out.len() == file.len() + (len - end) && out.subrange(
                len,
                out.len() as int,
            ) == file.subrange(end, file.len() as int)
        }),
{
    let end = region_end(file)->Ok_0;
    let fsb = frames_encoded(v, fs)->Ok_0;
    let pad = padding_for(v, fs, end);
    let t = tag_encoded(v, fs, pad)->Ok_0;
    let out = written(file, v, fs)->Ok_0;
    assert(t.len() == 10 + fsb.len() + pad);
    assert(out.subrange(t.len() as int, out.len() as int) =~= file.subrange(end, file.len() as int));
}

/// Removes the ID3v2 tag at the start of `file`, if there is one, and says
/// whether there was. On failure the file is left as it was.
pub fn remove_tag(file: &mut Vec<u8>) -> (r: Result<bool, Error>)
    ensures
        r is Ok <==> region_end(old(file)@) is Ok,
        r is Ok ==> r->Ok_0 == (region_end(old(file)@)->Ok_0 > 0) && final(file)@ == spliced(
            old(file)@,
            region_end(old(file)@)->Ok_0,
            Seq::empty(),
        ),
        r is Err ==> r->Err_0 == region_end(old(file)@)->Err_0 && final(file)@ == old(file)@,
{
    let end = match find_region_end(file.as_slice()) {
        Ok(e) => e,
        Err(e) => {
            return Err(e);
        },
    };
    let empty: Vec<u8> = Vec::new();
    splice(file, end, empty.as_slice());
    Ok(end > 0)
}

} // verus!
