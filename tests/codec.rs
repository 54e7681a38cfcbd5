use id3::values::split_values;
use id3::timestamp::{format_timestamp, parse_timestamp, Timestamp};
use id3::content::{decode_content, encode_content};
use id3::encoding::{decode, encode};
use id3::frame::{decode_frame, encode_frame};
use id3::syncsafe::{decode_syncsafe, encode_syncsafe};
use id3::tag::{encode_tag, read_header, read_tag, read_tag_partial};
use id3::unsync::{apply_unsync, remove_unsync};
use id3::{Content, Encoding, Error, Frame, FrameFlags, Tag, Version};

fn cps(s: &str) -> Vec<u32> {
    s.chars().map(|c| c as u32).collect()
}

fn plain() -> FrameFlags {
    FrameFlags {
        tag_alter_preservation: false,
        file_alter_preservation: false,
        read_only: false,
        compression: false,
        encryption: false,
        unsynchronisation: false,
        data_length_indicator: false,
    }
}

fn text(id: &str, e: Encoding, s: &str) -> Frame {
    Frame { id: id.as_bytes().to_vec(), flags: plain(), group: None, content: Content::Text(e, cps(s)) }
}

fn text_of(f: &Frame) -> Vec<u32> {
    match &f.content {
        Content::Text(_, t) => t.clone(),
        _ => panic!("not a text frame"),
    }
}

#[test]
fn syncsafe_known_values() {
    assert_eq!(encode_syncsafe(0x0FFF_FFFF), vec![0x7F, 0x7F, 0x7F, 0x7F]);
    assert_eq!(encode_syncsafe(257), vec![0x00, 0x00, 0x02, 0x01]);
    assert_eq!(decode_syncsafe(&[0x00, 0x00, 0x02, 0x01], 0), Some(257));
    assert_eq!(decode_syncsafe(&[0xAA, 0x7F, 0x7F, 0x7F, 0x7F], 1), Some(0x0FFF_FFFF));
}

#[test]
fn syncsafe_round_trip_and_high_bit() {
    for n in [0u32, 1, 127, 128, 16_383, 16_384, 2_097_151, 2_097_152, 0x0FFF_FFFF] {
        assert_eq!(decode_syncsafe(&encode_syncsafe(n), 0), Some(n));
    }
    assert_eq!(decode_syncsafe(&[0x80, 0, 0, 0], 0), None);
    assert_eq!(decode_syncsafe(&[0, 0, 0, 0xFF], 0), None);
}

#[test]
fn encoding_round_trip_every_encoding() {
    let samples = ["", "Song", "Caf\u{e9}", "\u{20ac}uro", "smile \u{1F600}"];
    for e in [Encoding::Latin1, Encoding::UTF16, Encoding::UTF16BE, Encoding::UTF8] {
        for s in samples {
            let t = cps(s);
            match encode(e, &t) {
                Ok(b) => assert_eq!(decode(e, &b), Ok(t)),
                Err(err) => {
                    assert_eq!(e, Encoding::Latin1);
                    assert_eq!(err, Error::InvalidInput);
                }
            }
        }
    }
}

#[test]
fn encoding_exact_bytes() {
    assert_eq!(encode(Encoding::UTF16, &cps("A")), Ok(vec![0xFE, 0xFF, 0x00, 0x41]));
    assert_eq!(encode(Encoding::UTF8, &cps("\u{20ac}")), Ok(vec![0xE2, 0x82, 0xAC]));
    assert_eq!(encode(Encoding::UTF16BE, &cps("\u{1F600}")), Ok(vec![0xD8, 0x3D, 0xDE, 0x00]));
    assert_eq!(encode(Encoding::Latin1, &cps("\u{e9}")), Ok(vec![0xE9]));
    assert_eq!(decode(Encoding::UTF16, &[0xFF, 0xFE, 0x41, 0x00]), Ok(cps("A")));
}

#[test]
fn encoding_failures() {
    assert_eq!(encode(Encoding::Latin1, &cps("\u{100}")), Err(Error::InvalidInput));
    assert_eq!(decode(Encoding::UTF16, &[0x12, 0x34, 0x00, 0x41]), Err(Error::StringDecoding));
    assert_eq!(decode(Encoding::UTF16BE, &[0x00, 0x41, 0x00]), Err(Error::StringDecoding));
    assert_eq!(decode(Encoding::UTF8, &[0xC0, 0x80]), Err(Error::StringDecoding));
    assert_eq!(decode(Encoding::UTF8, &[0xED, 0xA0, 0x80]), Err(Error::StringDecoding));
    assert_eq!(decode(Encoding::UTF16BE, &[0xDC, 0x00]), Err(Error::StringDecoding));
}

#[test]
fn unsync_version_rules() {
    assert_eq!(apply_unsync(Version::Id3v24, &[0xFF, 0xE0]), vec![0xFF, 0x00, 0xE0]);
    assert_eq!(apply_unsync(Version::Id3v24, &[0xFF, 0x10]), vec![0xFF, 0x10]);
    assert_eq!(apply_unsync(Version::Id3v23, &[0xFF, 0x10]), vec![0xFF, 0x00, 0x10]);
    assert_eq!(apply_unsync(Version::Id3v24, &[0xFF, 0x00]), vec![0xFF, 0x00, 0x00]);
    assert_eq!(remove_unsync(&[0xFF, 0x00, 0xE0, 0xFF, 0x00, 0x00]), vec![0xFF, 0xE0, 0xFF, 0x00]);
}

#[test]
fn unsync_round_trip() {
    let data = vec![0xFF, 0x00, 0xFF, 0xFF, 0xE1, 0x12, 0xFF, 0x00, 0x00, 0xFF];
    for v in [Version::Id3v22, Version::Id3v23, Version::Id3v24] {
        assert_eq!(remove_unsync(&apply_unsync(v, &data)), data);
    }
    let clean = vec![0x01, 0xFF, 0x12, 0xFF];
    assert_eq!(remove_unsync(&clean), clean);
}

#[test]
fn frame_round_trip_each_version() {
    for v in [Version::Id3v22, Version::Id3v23, Version::Id3v24] {
        let f = text("TIT2", Encoding::UTF16, "Title \u{e9}");
        let bytes = encode_frame(v, &f).unwrap();
        let hl = if v == Version::Id3v22 { 6 } else { 10 };
        let back = decode_frame(v, &bytes[..hl], &bytes[hl..]).unwrap();
        assert_eq!(back.id, b"TIT2".to_vec());
        assert_eq!(text_of(&back), cps("Title \u{e9}"));
    }
}

#[test]
fn frame_v24_flags_round_trip() {
    let mut f = text("TPE1", Encoding::UTF8, "\u{FF}\u{FF}");
    f.flags.unsynchronisation = true;
    f.flags.data_length_indicator = true;
    f.flags.read_only = true;
    f.group = Some(7);
    let bytes = encode_frame(Version::Id3v24, &f).unwrap();
    assert_eq!(bytes[8], 0x10);
    assert_eq!(bytes[9], 0x40 | 0x02 | 0x01);
    let back = decode_frame(Version::Id3v24, &bytes[..10], &bytes[10..]).unwrap();
    assert_eq!(back.flags, f.flags);
    assert_eq!(back.group, Some(7));
    assert_eq!(text_of(&back), cps("\u{FF}\u{FF}"));
}

#[test]
fn frame_write_rejections() {
    let f = text("TIT2", Encoding::UTF8, "x");
    assert_eq!(encode_frame(Version::Id3v23, &f), Err(Error::UnsupportedFeature));
    let g = text("TDRC", Encoding::Latin1, "x");
    assert_eq!(encode_frame(Version::Id3v22, &g), Err(Error::UnsupportedFeature));
    let mut h = text("TIT2", Encoding::Latin1, "x");
    h.flags.encryption = true;
    assert_eq!(encode_frame(Version::Id3v24, &h), Err(Error::UnsupportedFeature));
}

#[test]
fn v22_legacy_identifier() {
    // ID3v2.2 tag with one TT2 frame holding "Hi" in Latin1.
    let mut b = vec![0x49, 0x44, 0x33, 2, 0, 0, 0, 0, 0, 9];
    b.extend_from_slice(&[0x54, 0x54, 0x32, 0, 0, 3, 0, 0x48, 0x69]);
    let t = read_tag(&b).unwrap();
    assert_eq!(t.version, Version::Id3v22);
    assert_eq!(t.frames.len(), 1);
    assert_eq!(t.frames[0].id, b"TIT2".to_vec());
    assert_eq!(text_of(&t.frames[0]), cps("Hi"));
    assert_eq!(encode_tag(&t, Version::Id3v22, 0), Ok(b));
}

#[test]
fn encrypted_frame_is_skipped_under_partial_read() {
    let enc = Frame {
        id: b"TALB".to_vec(),
        flags: FrameFlags { encryption: true, ..plain() },
        group: None,
        content: Content::Unknown(vec![1, 2, 3]),
    };
    // Build the encrypted frame by hand: the encoder refuses to write one.
    let mut body = vec![0x54, 0x41, 0x4C, 0x42, 0, 0, 0, 3, 0x00, 0x04, 1, 2, 3];
    body.extend(encode_frame(Version::Id3v24, &text("TIT2", Encoding::UTF8, "Song")).unwrap());
    let mut b = vec![0x49, 0x44, 0x33, 4, 0, 0];
    b.extend(encode_syncsafe(body.len() as u32));
    b.extend(body);
    assert_eq!(enc.flags.encryption, true);
    let (t, skipped) = read_tag_partial(&b).unwrap();
    assert_eq!(skipped, vec![Error::UnsupportedFeature]);
    assert_eq!(t.frames.len(), 1);
    assert_eq!(text_of(&t.frames[0]), cps("Song"));
    assert_eq!(read_tag(&b).err(), Some(Error::UnsupportedFeature));
}

#[test]
fn tag_header_errors() {
    assert_eq!(read_header(&[0x49, 0x44]), Err(Error::NoTag));
    assert_eq!(read_header(&[0x4F, 0x67, 0x67, 4, 0, 0, 0, 0, 0, 0]), Err(Error::NoTag));
    assert_eq!(read_header(&[0x49, 0x44, 0x33, 5, 0, 0, 0, 0, 0, 0]), Err(Error::UnsupportedVersion));
    assert_eq!(read_header(&[0x49, 0x44, 0x33, 4, 0, 0, 0, 0, 0x80, 0]), Err(Error::Parsing));
    let h = read_header(&[0x49, 0x44, 0x33, 3, 0, 0x40, 0, 0, 0x02, 0x01]).unwrap();
    assert_eq!(h.size, 257);
    assert_eq!(h.flags, 0x40);
}

#[test]
fn tag_with_padding_and_unsync() {
    let t = Tag { version: Version::Id3v23, frames: vec![text("TIT2", Encoding::Latin1, "\u{FF}\u{E0}")] };
    let b = encode_tag(&t, Version::Id3v23, 5).unwrap();
    assert_eq!(&b[6..10], &[0, 0, 0, 10 + 1 + 2 + 5]);
    assert_eq!(read_tag(&b).unwrap().frames.len(), 1);
    // The same tag, unsynchronised as a whole.
    let mut u = b[..10].to_vec();
    u[5] = 0x80;
    let body = apply_unsync(Version::Id3v23, &b[10..]);
    u[6..10].copy_from_slice(&encode_syncsafe(body.len() as u32));
    u.extend(body);
    let back = read_tag(&u).unwrap();
    assert_eq!(text_of(&back.frames[0]), cps("\u{FF}\u{E0}"));
}

#[test]
fn truncated_frame_is_parsing_error() {
    let mut b = vec![0x49, 0x44, 0x33, 4, 0, 0, 0, 0, 0, 12];
    b.extend_from_slice(&[0x54, 0x49, 0x54, 0x32, 0, 0, 0, 9, 0, 0, 3, 0x41]);
    assert_eq!(read_tag(&b).err(), Some(Error::Parsing));
}

#[test]
fn comment_and_extended_round_trip() {
    let shapes = [
        ("COMM", Content::Comment(Encoding::UTF16, b"eng".to_vec(), cps("desc"), cps("body \u{1F600}"))),
        ("USLT", Content::Comment(Encoding::Latin1, b"xx1".to_vec(), cps(""), cps("la la"))),
        ("TXXX", Content::ExtendedText(Encoding::UTF16, cps("key"), cps("value"))),
        ("WXXX", Content::ExtendedLink(Encoding::Latin1, cps("home"), cps("http://example.com"))),
    ];
    for v in [Version::Id3v22, Version::Id3v23, Version::Id3v24] {
        for (id, c) in shapes.iter() {
            let b = encode_content(v, c).unwrap();
            let back = decode_content(v, id.as_bytes(), &b).unwrap();
            assert_eq!(format!("{:?}", back), format!("{:?}", c));
        }
    }
}

#[test]
fn comment_exact_bytes() {
    let c = Content::Comment(Encoding::Latin1, b"eng".to_vec(), cps("d"), cps("t"));
    assert_eq!(encode_content(Version::Id3v23, &c), Ok(vec![0, 0x65, 0x6E, 0x67, 0x64, 0, 0x74]));
    let u = Content::ExtendedText(Encoding::UTF16BE, cps("a"), cps("b"));
    assert_eq!(encode_content(Version::Id3v24, &u), Ok(vec![2, 0, 0x61, 0, 0, 0, 0x62]));
}

#[test]
fn content_write_and_read_errors() {
    let nul = Content::ExtendedText(Encoding::Latin1, cps("a\u{0}b"), cps("v"));
    assert_eq!(encode_content(Version::Id3v24, &nul), Err(Error::InvalidInput));
    let lang = Content::Comment(Encoding::Latin1, b"en".to_vec(), cps(""), cps(""));
    assert_eq!(encode_content(Version::Id3v24, &lang), Err(Error::InvalidInput));
    assert_eq!(decode_content(Version::Id3v24, b"TXXX", &[0, 0x61, 0x62]).err(), Some(Error::Parsing));
    assert_eq!(decode_content(Version::Id3v24, b"COMM", &[0, 0x65]).err(), Some(Error::Parsing));
    assert_eq!(decode_content(Version::Id3v23, b"TIT2", &[3, 0x61]).err(), Some(Error::Parsing));
    assert_eq!(decode_content(Version::Id3v24, b"TIT2", &[3, 0xFF]).err(), Some(Error::StringDecoding));
    assert_eq!(decode_content(Version::Id3v24, b"TIT2", &[]).err(), Some(Error::Parsing));
}

#[test]
fn picture_round_trip_and_layout() {
    let c = Content::Picture(Encoding::Latin1, b"image/png".to_vec(), 3, cps("cover"), vec![0x89, 0x50, 0, 0, 0xFF]);
    for v in [Version::Id3v23, Version::Id3v24] {
        let b = encode_content(v, &c).unwrap();
        assert_eq!(&b[..11], &[0, 0x69, 0x6D, 0x61, 0x67, 0x65, 0x2F, 0x70, 0x6E, 0x67, 0]);
        assert_eq!(b[11], 3);
        let back = decode_content(v, b"APIC", &b).unwrap();
        assert_eq!(format!("{:?}", back), format!("{:?}", c));
    }
    let old = Content::Picture(Encoding::UTF16, b"JPG".to_vec(), 0, cps("d"), vec![1, 2]);
    let b = encode_content(Version::Id3v22, &old).unwrap();
    assert_eq!(b, vec![1, 0x4A, 0x50, 0x47, 0, 0xFE, 0xFF, 0, 0x64, 0, 0, 1, 2]);
    let back = decode_content(Version::Id3v22, b"APIC", &b).unwrap();
    assert_eq!(format!("{:?}", back), format!("{:?}", old));
    assert_eq!(encode_content(Version::Id3v22, &c), Err(Error::InvalidInput));
}

#[test]
fn popularimeter_round_trip_and_counter_width() {
    let small = Content::Popularimeter(b"a@b".to_vec(), 196, 0x0102);
    let b = encode_content(Version::Id3v24, &small).unwrap();
    assert_eq!(b, vec![0x61, 0x40, 0x62, 0, 196, 0, 0, 1, 2]);
    assert_eq!(format!("{:?}", decode_content(Version::Id3v23, b"POPM", &b).unwrap()), format!("{:?}", small));
    let big = Content::Popularimeter(Vec::new(), 1, 0x1_0000_0000);
    let b = encode_content(Version::Id3v22, &big).unwrap();
    assert_eq!(b, vec![0, 1, 0, 0, 0, 1, 0, 0, 0, 0]);
    assert_eq!(format!("{:?}", decode_content(Version::Id3v24, b"POPM", &b).unwrap()), format!("{:?}", big));
    let short = decode_content(Version::Id3v24, b"POPM", &[0x78, 0, 5, 7]).unwrap();
    assert_eq!(format!("{:?}", short), format!("{:?}", Content::Popularimeter(vec![0x78], 5, 7)));
    assert_eq!(decode_content(Version::Id3v24, b"POPM", &[0, 5, 1, 1, 1, 1, 1, 1, 1, 1, 1]).err(), Some(Error::Parsing));
}

#[test]
fn timestamp_partial_round_trip() {
    for s in ["2024", "1999-07", "0042-12-31", "2024-02-29T23", "2024-02-29T23:59", "2024-02-29T23:59:58"] {
        let t = parse_timestamp(&cps(s)).unwrap();
        assert_eq!(format_timestamp(&t), cps(s));
    }
    let t = parse_timestamp(&cps("2024-03")).unwrap();
    assert_eq!(t, Timestamp { year: 2024, month: Some(3), day: None, hour: None, minute: None, second: None });
    for bad in ["24", "2024-13", "2024-00", "2024/03", "2024-03-01T24", "2024-03-01 10", "20x4"] {
        assert_eq!(parse_timestamp(&cps(bad)), None);
    }
    let t = Timestamp { year: 7, month: Some(1), day: Some(2), hour: Some(3), minute: None, second: None };
    assert_eq!(format_timestamp(&t), cps("0007-01-02T03"));
}

#[test]
fn multi_valued_text_splits_at_zero() {
    assert_eq!(split_values(&cps("Rock\u{0}Pop")), vec![cps("Rock"), cps("Pop")]);
    assert_eq!(split_values(&cps("")), vec![Vec::<u32>::new()]);
    assert_eq!(split_values(&cps("a\u{0}")), vec![cps("a"), Vec::new()]);
    assert_eq!(split_values(&cps("solo")), vec![cps("solo")]);
}

#[test]
fn compressed_frames_round_trip() {
    for v in [Version::Id3v23, Version::Id3v24] {
        let mut f = text("TIT2", Encoding::Latin1, &"compress me ".repeat(20));
        f.flags.compression = true;
        if v == Version::Id3v24 {
            f.flags.data_length_indicator = true;
        }
        let bytes = encode_frame(v, &f).unwrap();
        // The body is shorter than the 241 bytes of the uncompressed payload.
        assert!(bytes.len() < 10 + 241);
        if v == Version::Id3v23 {
            assert_eq!(&bytes[10..14], &[0, 0, 0, 241]);
        }
        let back = decode_frame(v, &bytes[..10], &bytes[10..]).unwrap();
        assert_eq!(back.flags, f.flags);
        assert_eq!(text_of(&back), cps(&"compress me ".repeat(20)));
    }
}

#[test]
fn corrupt_compressed_frame_is_parsing_error() {
    // ID3v2.4 frame, compressed and with a data-length indicator, whose body
    // is not a zlib stream.
    let h = [0x54, 0x49, 0x54, 0x32, 0, 0, 0, 7, 0, 0x09];
    let d = [0, 0, 0, 3, 1, 2, 3];
    assert_eq!(decode_frame(Version::Id3v24, &h, &d).err(), Some(Error::Parsing));
}
