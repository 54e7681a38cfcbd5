use id3::storage::write_tag;
use id3::tag::{encode_tag, read_tag};
use id3::v1::read_v1;
use id3::{
    is_candidate, no_tag_ok, read_from, read_from_partial, remove_from_path, write_to_file, Content, Encoding, Error,
    FormatVersion, Frame, FrameFlags, Tag, Version,
};

fn cps(s: &str) -> Vec<u32> {
    s.chars().map(|c| c as u32).collect()
}

fn plain() -> FrameFlags {
    FrameFlags {
        tag_alter_preservation: false,
        file_alter_preservation: false,
        read_only: false,
        compression: false,
        encryption: false,
        unsynchronisation: false,
        data_length_indicator: false,
    }
}

fn text(id: &str, e: Encoding, s: &str) -> Frame {
    Frame { id: id.as_bytes().to_vec(), flags: plain(), group: None, content: Content::Text(e, cps(s)) }
}

fn find_text(t: &Tag, id: &str) -> Option<Vec<u32>> {
    for f in &t.frames {
        if f.id == id.as_bytes() {
            if let Content::Text(_, s) = &f.content {
                return Some(s.clone());
            }
        }
    }
    None
}

fn v1_tag(title: &str, genre: u8) -> Vec<u8> {
    let mut b = vec![0u8; 128];
    b[..3].copy_from_slice(b"TAG");
    b[3..3 + title.len()].copy_from_slice(title.as_bytes());
    b[127] = genre;
    b
}

fn v2_tag() -> Vec<u8> {
    let t = Tag {
        version: Version::Id3v24,
        frames: vec![text("TIT2", Encoding::UTF8, "Song"), text("TCON", Encoding::UTF8, "Genre")],
    };
    encode_tag(&t, Version::Id3v24, 0).unwrap()
}

fn file_with_both_formats() -> Vec<u8> {
    let mut f = v2_tag();
    f.extend(vec![0xAA; 1337]);
    f.extend(v1_tag("Old", 31));
    f
}

#[test]
fn test_is_candidate() {
    assert_eq!(is_candidate(&file_with_both_formats()), Ok(FormatVersion::Both));
    assert_eq!(is_candidate(&[0xFF, 0xD8, 0xFF, 0xE0, 0, 0x10, 0x4A, 0x46, 0x49, 0x46]), Ok(FormatVersion::Neither));
    assert_eq!(is_candidate(&v1_tag("x", 1)), Ok(FormatVersion::Id3v1));
    assert_eq!(is_candidate(&v2_tag()), Ok(FormatVersion::Id3v2));
}

#[test]
fn test_read_from_path() {
    let v2 = read_from(&file_with_both_formats()).unwrap();
    assert_eq!(find_text(&v2, "TCON"), Some(cps("Genre")));
    assert_eq!(find_text(&v2, "TIT2"), Some(cps("Song")));

    let v1 = read_from(&v1_tag("Old", 31)).unwrap();
    assert_eq!(find_text(&v1, "TCON"), Some(cps("Trance")));
    assert_eq!(find_text(&v1, "TIT2"), Some(cps("Old")));
}

#[test]
fn test_write_to_path() {
    let mut file = file_with_both_formats();
    let mut tag = read_from(&file).unwrap();
    tag.frames.push(text("TPE1", Encoding::UTF8, "High Contrast"));
    write_to_file(&mut file, &tag, Version::Id3v24).unwrap();

    assert_eq!(is_candidate(&file), Ok(FormatVersion::Id3v2));
    let back = read_from(&file).unwrap();
    assert_eq!(find_text(&back, "TPE1"), Some(cps("High Contrast")));
}

#[test]
fn test_remove_from_path() {
    let mut file = file_with_both_formats();
    assert_eq!(remove_from_path(&mut file), Ok(FormatVersion::Both));
    assert_eq!(file, vec![0xAA; 1337]);
    assert_eq!(is_candidate(&file), Ok(FormatVersion::Neither));
    assert_eq!(remove_from_path(&mut file), Ok(FormatVersion::Neither));
}

#[test]
fn read_from_without_tags() {
    let r = read_from(&vec![0u8; 300]);
    assert_eq!(r.as_ref().err(), Some(&Error::NoTag));
    assert!(no_tag_ok(&r));
    assert!(!no_tag_ok(&read_from(&[0x49, 0x44, 0x33, 9, 0, 0, 0, 0, 0, 0])));
}

#[test]
fn v1_fields_and_genre() {
    let mut b = v1_tag("Title", 255);
    b[93..97].copy_from_slice(b"1999");
    let t = read_v1(&b).unwrap();
    assert_eq!(t.frames.len(), 2);
    assert_eq!(find_text(&t, "TYER"), Some(cps("1999")));
    assert_eq!(find_text(&read_v1(&v1_tag("", 0)).unwrap(), "TCON"), Some(cps("Blues")));
    assert_eq!(find_text(&read_v1(&v1_tag("", 7)).unwrap(), "TCON"), Some(cps("Hip-Hop")));
    assert_eq!(find_text(&read_v1(&v1_tag("", 79)).unwrap(), "TCON"), Some(cps("Hard Rock")));
    assert_eq!(find_text(&read_v1(&v1_tag("", 80)).unwrap(), "TCON"), None);
}

#[test]
fn smaller_tag_keeps_payload_in_place() {
    let mut file = v2_tag();
    let old_end = file.len();
    file.extend((0..500u32).map(|i| (i % 251) as u8));
    let before = file.clone();
    let small = Tag { version: Version::Id3v24, frames: vec![text("TIT2", Encoding::Latin1, "S")] };
    write_tag(&mut file, &small, Version::Id3v24).unwrap();
    assert_eq!(file.len(), before.len());
    assert_eq!(&file[old_end..], &before[old_end..]);
    let t = read_tag(&file).unwrap();
    assert_eq!(t.frames.len(), 1);
    assert_eq!(find_text(&t, "TIT2"), Some(cps("S")));
}

#[test]
fn larger_tag_shifts_payload() {
    let mut file = v2_tag();
    let old_end = file.len();
    file.extend((0..5000u32).map(|i| (i % 253) as u8));
    let before = file.clone();
    let big = Tag {
        version: Version::Id3v24,
        frames: vec![text("TIT2", Encoding::UTF8, &"long title ".repeat(40))],
    };
    let new_len = encode_tag(&big, Version::Id3v24, 0).unwrap().len();
    assert!(new_len > old_end);
    write_tag(&mut file, &big, Version::Id3v24).unwrap();
    assert_eq!(file.len(), before.len() + (new_len - old_end));
    assert_eq!(&file[new_len..], &before[old_end..]);
}

#[test]
fn write_failure_leaves_file() {
    let mut file = file_with_both_formats();
    let before = file.clone();
    let bad = Tag { version: Version::Id3v23, frames: vec![text("TIT2", Encoding::UTF8, "x")] };
    assert_eq!(write_to_file(&mut file, &bad, Version::Id3v23), Err(Error::UnsupportedFeature));
    assert_eq!(file, before);
}

#[test]
fn footer_counts_in_tag_region() {
    // ID3v2.4 tag with the footer flag, no frames, then the footer and audio.
    let mut file = vec![0x49, 0x44, 0x33, 4, 0, 0x10, 0, 0, 0, 4, 0, 0, 0, 0];
    file.extend_from_slice(&[0x33, 0x44, 0x49, 4, 0, 0x10, 0, 0, 0, 4]);
    file.extend_from_slice(&[7, 8, 9]);
    assert_eq!(id3::storage::find_region_end(&file), Ok(24));
    assert_eq!(read_tag(&file).unwrap().frames.len(), 0);
    assert_eq!(remove_from_path(&mut file), Ok(FormatVersion::Id3v2));
    assert_eq!(file, vec![7, 8, 9]);
}

#[test]
fn extended_header_is_skipped() {
    // ID3v2.3 tag with a six-byte extended header before one frame.
    let mut file = vec![0x49, 0x44, 0x33, 3, 0, 0x40, 0, 0, 0, 10 + 12];
    file.extend_from_slice(&[0, 0, 0, 6, 0, 0, 0, 0, 0, 0]);
    file.extend_from_slice(&[0x54, 0x49, 0x54, 0x32, 0, 0, 0, 2, 0, 0, 0, 0x41]);
    let t = read_tag(&file).unwrap();
    assert_eq!(find_text(&t, "TIT2"), Some(cps("A")));
}

#[test]
fn is_candidate_passes_header_errors_on() {
    assert_eq!(is_candidate(&[0x49, 0x44, 0x33, 5, 0, 0, 0, 0, 0, 0]), Err(Error::UnsupportedVersion));
    assert_eq!(is_candidate(&[0x49, 0x44, 0x33, 4, 0, 0, 0x80, 0, 0, 0]), Err(Error::Parsing));
    assert_eq!(is_candidate(&[0x49, 0x44, 0x33]), Ok(FormatVersion::Neither));
}

#[test]
fn stacked_v2_tags_are_all_removed() {
    let mut file = v2_tag();
    file.extend(v2_tag());
    file.extend(vec![0x55; 40]);
    file.extend(v1_tag("x", 1));
    assert_eq!(remove_from_path(&mut file), Ok(FormatVersion::Both));
    assert_eq!(file, vec![0x55; 40]);
    assert_eq!(remove_from_path(&mut file), Ok(FormatVersion::Neither));
    assert_eq!(file, vec![0x55; 40]);
}

#[test]
fn write_keeps_tag_bytes_that_look_like_v1() {
    // A short file and a tag whose last 128 bytes start with "TAG".
    let mut file = vec![1u8, 2, 3];
    let mut value = String::from("TAG");
    value.push_str(&"x".repeat(122));
    let tag = Tag { version: Version::Id3v24, frames: vec![text("TIT2", Encoding::Latin1, &value)] };
    write_to_file(&mut file, &tag, Version::Id3v24).unwrap();
    let new_len = encode_tag(&tag, Version::Id3v24, 0).unwrap().len();
    assert_eq!(&file[file.len() - 128..file.len() - 125], b"TAG");
    assert_eq!(file.len(), new_len + 3);
    assert_eq!(&file[new_len..], &[1, 2, 3]);
    assert_eq!(find_text(&read_from(&file).unwrap(), "TIT2"), Some(cps(&value)));
}

#[test]
fn partial_read_skips_encrypted_frame() {
    let mut body = vec![0x54, 0x41, 0x4C, 0x42, 0, 0, 0, 3, 0x00, 0x04, 1, 2, 3];
    let mut t2 = Tag { version: Version::Id3v24, frames: vec![text("TIT2", Encoding::UTF8, "Song")] };
    let enc = encode_tag(&t2, Version::Id3v24, 0).unwrap();
    body.extend_from_slice(&enc[10..]);
    let mut file = vec![0x49, 0x44, 0x33, 4, 0, 0, 0, 0, 0, body.len() as u8];
    file.extend(body);
    assert_eq!(read_from(&file).err(), Some(Error::UnsupportedFeature));
    let (t, skipped) = read_from_partial(&file).unwrap();
    assert_eq!(skipped, vec![Error::UnsupportedFeature]);
    assert_eq!(find_text(&t, "TIT2"), Some(cps("Song")));
    t2.frames.clear();
    let (v1, none) = read_from_partial(&v1_tag("Old", 31)).unwrap();
    assert!(none.is_empty());
    assert_eq!(find_text(&v1, "TCON"), Some(cps("Trance")));
}
