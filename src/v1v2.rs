//! Both tag formats at once: ID3v2 at the start of a file, ID3v1 at its end.
use vstd::prelude::*;
use crate::error::Error;
use crate::frame::FrameModel;
use crate::storage::{padding_for, region_end, remove_tag, spliced, write_tag, written, written_tag};
use crate::tag::{Tag, TagModel, frames_readable, lemma_tag_round_trip, header_of, read_header, read_tag, read_tag_partial, tag_read, tag_read_partial};
use crate::v1::{has_v1, is_v1_candidate, read_v1, remove_v1, v1_read};
use crate::version::Version;

verus! {

/// Which tag formats are present in a file.
#[derive(Clone, Copy, Debug, PartialEq, Eq, Structural)]
pub enum FormatVersion {
    /// No tags.
    Neither,
    /// ID3v1 only.
    Id3v1,
    /// ID3v2 only.
    Id3v2,
    /// ID3v1 and ID3v2.
    Both,
}

/// The presence state of the two formats.
pub open spec fn format_of(v1: bool, v2: bool) -> FormatVersion {
    match (v1, v2) {
        (false, false) => FormatVersion::Neither,
        (true, false) => FormatVersion::Id3v1,
        (false, true) => FormatVersion::Id3v2,
        (true, true) => FormatVersion::Both,
    }
}

fn format_exec(v1: bool, v2: bool) -> (r: FormatVersion)
    ensures
        r == format_of(v1, v2),
{
    match (v1, v2) {
        (false, false) => FormatVersion::Neither,
        (true, false) => FormatVersion::Id3v1,
        (false, true) => FormatVersion::Id3v2,
        (true, true) => FormatVersion::Both,
    }
}

/// Whether `file` starts with a readable ID3v2 header of a supported
/// revision.
pub open spec fn has_v2(file: Seq<u8>) -> bool {
    header_of(file) is Ok
}

/// Returns which tags are present in `file`. Fails where `file` starts with
/// the ID3v2 magic but its header cannot be read: an unsupported revision or a
/// size that is not syncsafe.
pub fn is_candidate(file: &[u8]) -> (r: Result<FormatVersion, Error>)
    ensures
        r is Err <==> (header_of(file@) is Err && header_of(file@)->Err_0 != Error::NoTag),
        r is Err ==> r->Err_0 == header_of(file@)->Err_0,
        r is Ok ==> r->Ok_0 == format_of(has_v1(file@), has_v2(file@)),
{
    let v2 = match read_header(file) {
        Ok(_) => true,
        Err(Error::NoTag) => false,
        Err(e) => {
            return Err(e);
        },
    };
    let v1 = is_v1_candidate(file);
    Ok(format_exec(v1, v2))
}

/// What reading `file` yields: its ID3v2 tag; where it has none, its ID3v1
/// tag; where it has neither, no tag.
pub open spec fn read_any(file: Seq<u8>) -> Result<TagModel, Error> {
    match tag_read(file) {
        Err(Error::NoTag) => v1_read(file),
        r => r,
    }
}

/// Reads an ID3v2 tag from `file`, or an ID3v1 tag where there is no ID3v2
/// one.
pub fn read_from(file: &[u8]) -> (r: Result<Tag, Error>)
    ensures
        r is Ok <==> read_any(file@) is Ok,
        r is Ok ==> r->Ok_0@ == read_any(file@)->Ok_0,
        r is Err ==> r->Err_0 == read_any(file@)->Err_0,
{
    match read_tag(file) {
        Err(Error::NoTag) => read_v1(file),
        r => r,
    }
}

/// What reading `file` yields when ID3v2 frames that cannot be read are
/// skipped: the tag and why each skipped frame was skipped; an ID3v1 tag,
/// with nothing skipped, where there is no ID3v2 tag.
pub open spec fn read_any_partial(file: Seq<u8>) -> Result<(TagModel, Seq<Error>), Error> {
    match tag_read_partial(file) {
        Err(Error::NoTag) => match v1_read(file) {
            Ok(t) => Ok((t, Seq::empty())),
            Err(e) => Err(e),
        },
        r => r,
    }
}

/// Reads like `read_from`, but skips the ID3v2 frames that cannot be read
/// (an encrypted one, say) instead of failing, and says why each was
/// skipped. Header errors still fail the read.
pub fn read_from_partial(file: &[u8]) -> (r: Result<(Tag, Vec<Error>), Error>)
    ensures
        r is Ok <==> read_any_partial(file@) is Ok,
        r is Ok ==> r->Ok_0.0@ == read_any_partial(file@)->Ok_0.0 && r->Ok_0.1@ == read_any_partial(
            file@,
        )->Ok_0.1,
        r is Err ==> r->Err_0 == read_any_partial(file@)->Err_0,
{
    match read_tag_partial(file) {
        Err(Error::NoTag) => match read_v1(file) {
            Ok(t) => {
                let none: Vec<Error> = Vec::new();
                assert(none@ =~= Seq::<Error>::empty());
                Ok((t, none))
            },
            Err(e) => Err(e),
        },
        r => r,
    }
}

/// `file` with its last 128 bytes cut off where they are an ID3v1 tag that
/// starts at or after `start`.
pub open spec fn without_v1_after(file: Seq<u8>, start: int) -> Seq<u8> {
    if has_v1(file) && file.len() - 128 >= start { file.subrange(0, file.len() - 128) } else { file }
}

/// `file` with its last 128 bytes cut off where they are an ID3v1 tag.
pub open spec fn without_v1(file: Seq<u8>) -> Seq<u8> {
    without_v1_after(file, 0)
}

/// Writes `tag` into `file` as an ID3v2 tag of revision `version`, in place
/// of any ID3v2 tag there, then removes an ID3v1 tag that follows the new
/// ID3v2 tag, as ID3v1 cannot hold everything an ID3v2 tag holds. On failure
/// the file is left as it was.
pub fn write_to_file(file: &mut Vec<u8>, tag: &Tag, version: Version) -> (r: Result<(), Error>)
    requires
        old(file)@.len() <= usize::MAX - 0x1000_0010,
    ensures
        r is Ok <==> written(old(file)@, version, tag@.frames) is Ok,
        r is Ok ==> final(file)@ == without_v1_after(
            written(old(file)@, version, tag@.frames)->Ok_0,
            written_tag(old(file)@, version, tag@.frames)->Ok_0.len() as int,
        ),
        r is Err ==> r->Err_0 == written(old(file)@, version, tag@.frames)->Err_0 && final(file)@
            == old(file)@,
{
    match write_tag(file, tag, version) {
        Err(e) => Err(e),
        Ok(len) => {
            if file.len() >= 128 && file.len() - 128 >= len && is_v1_candidate(file.as_slice()) {
                remove_v1(file);
            }
            Ok(())
        },
    }
}

/// `file` with every ID3v2 tag at its start removed, one after another, or
/// the failure to read one of their headers.
pub open spec fn v2_stripped(file: Seq<u8>) -> Result<Seq<u8>, Error>
    decreases file.len(),
{
    match region_end(file) {
        Err(e) => Err(e),
        Ok(end) => if 0 < end <= file.len() {
            v2_stripped(file.subrange(end, file.len() as int))
        } else {
            Ok(file)
        },
    }
}

proof fn lemma_strip_step(f: Seq<u8>)
    ensures
        region_end(f) is Ok ==> {
            let end = region_end(f)->Ok_0;
            &&& 0 <= end <= f.len()
            &&& spliced(f, end, Seq::empty()) == f.subrange(end, f.len() as int)
            &&& end == 0 ==> v2_stripped(f) == Ok::<Seq<u8>, Error>(f) && f.subrange(end, f.len() as int) == f
            &&& end > 0 ==> v2_stripped(f) == v2_stripped(f.subrange(end, f.len() as int))
        },
        region_end(f) is Err ==> v2_stripped(f) == Err::<Seq<u8>, Error>(region_end(f)->Err_0),
{
    if region_end(f) is Ok {
        let end = region_end(f)->Ok_0;
        assert(spliced(f, end, Seq::empty()) =~= f.subrange(end, f.len() as int));
        if end == 0 {
            assert(f.subrange(0, f.len() as int) =~= f);
        }
    }
}

proof fn lemma_strip_step_any(f: Seq<u8>)
    ensures
        forall|g: Seq<u8>|
            #![trigger spliced(f, region_end(f)->Ok_0, g)]
            g.len() == 0 && region_end(f) is Ok ==> spliced(f, region_end(f)->Ok_0, g).len() <= f.len(),
{
    lemma_strip_step(f);
    assert forall|g: Seq<u8>|
        #![trigger spliced(f, region_end(f)->Ok_0, g)]
        g.len() == 0 && region_end(f) is Ok implies spliced(f, region_end(f)->Ok_0, g).len() <= f.len() by {
        assert(g =~= Seq::<u8>::empty());
    }
}

proof fn lemma_stripped_has_no_v2(file: Seq<u8>)
    requires
        v2_stripped(file) is Ok,
    ensures
        header_of(v2_stripped(file)->Ok_0) == Err::<crate::tag::Header, Error>(Error::NoTag),
    decreases file.len(),
{
    match region_end(file) {
        Err(_) => {},
        Ok(end) => if 0 < end <= file.len() {
            lemma_stripped_has_no_v2(file.subrange(end, file.len() as int));
        } else {
            assert(end == 0);
        },
    }
}

proof fn lemma_cut_keeps_no_v2(s: Seq<u8>)
    requires
        header_of(s) == Err::<crate::tag::Header, Error>(Error::NoTag),
    ensures
        header_of(without_v1(s)) == Err::<crate::tag::Header, Error>(Error::NoTag),
{
    let t = without_v1(s);
    if t.len() >= 10 {
        assert(t[0] == s[0] && t[1] == s[1] && t[2] == s[2]);
    }
}

/// Removes every ID3v2 tag at the start of `file`, then an ID3v1 tag at its
/// end, and says which were present. Afterwards no ID3v2 tag is found at
/// the start, so removing again leaves the start of the file alone. Fails,
/// leaving the file as it was, where an ID3v2 header is unreadable.
pub fn remove_from_path(file: &mut Vec<u8>) -> (r: Result<FormatVersion, Error>)
    ensures
        r is Ok <==> v2_stripped(old(file)@) is Ok,
        r is Ok ==> final(file)@ == without_v1(v2_stripped(old(file)@)->Ok_0) && r->Ok_0
            == format_of(has_v1(v2_stripped(old(file)@)->Ok_0), region_end(old(file)@)->Ok_0 > 0)
            && header_of(final(file)@) == Err::<crate::tag::Header, Error>(Error::NoTag),
        r is Err ==> r->Err_0 == v2_stripped(old(file)@)->Err_0 && final(file)@ == old(file)@,
{
    let orig = file.clone();
    let ghost start = file@;
    assert(orig@ == start);
    let v2 = match remove_tag(file) {
        Ok(b) => b,
        Err(e) => {
            return Err(e);
        },
    };
    proof {
        lemma_strip_step(start);
    }
    if v2 {
        loop
            invariant
                v2_stripped(start) == v2_stripped(file@),
                orig@ == start,
                start == old(file)@,
            ensures
                v2_stripped(start) == v2_stripped(file@),
                region_end(file@) == Ok::<int, Error>(0),
            decreases file@.len(),
        {
            let ghost before = file@;
            proof {
                lemma_strip_step(before);
                lemma_strip_step_any(before);
            }
            match remove_tag(file) {
                Err(e) => {
                    *file = orig;
                    return Err(e);
                },
                Ok(b) => {
                    if !b {
                        break;
                    }
                },
            }
        }
    }
    proof {
        lemma_strip_step(file@);
        lemma_stripped_has_no_v2(start);
    }
    assert(v2_stripped(start) == Ok::<Seq<u8>, Error>(file@));
    let v1 = remove_v1(file);
    proof {
        lemma_cut_keeps_no_v2(v2_stripped(start)->Ok_0);
    }
    Ok(format_exec(v1, v2))
}

/// A file that `write_to_file` wrote reads back through `read_from` as a tag
/// of the revision written with the same frames in the same order.
pub proof fn lemma_write_then_read(file: Seq<u8>, v: Version, fs: Seq<FrameModel>)
    requires
        written(file, v, fs) is Ok,
        frames_readable(v, fs),
    ensures
        read_any(
            without_v1_after(written(file, v, fs)->Ok_0, written_tag(file, v, fs)->Ok_0.len() as int),
        ) == Ok::<TagModel, Error>(TagModel { version: v, frames: fs }),
{
    let end = region_end(file)->Ok_0;
    let t = written_tag(file, v, fs)->Ok_0;
    let w = written(file, v, fs)->Ok_0;
    let rest = file.subrange(end, file.len() as int);
    let out = without_v1_after(w, t.len() as int);
    let tail = if out == w { rest } else { rest.subrange(0, rest.len() - 128) };
    assert(out =~= t + tail);
    lemma_tag_round_trip(v, fs, padding_for(v, fs, end), tail);
}

} // verus!
