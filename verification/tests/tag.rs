use std::rc::Rc;

use audiotag::formats::error::Error;
use audiotag::formats::mpeg::frame::{Frame, StringType, SubClass};
use audiotag::formats::mpeg::tag::{parse_tag_header, sizeof_footer, Tag, TagHeader};

fn header(version: u8) -> TagHeader {
    TagHeader {
        major_version: version,
        rev_num: 0,
        size: 0,
        unsynch: false,
        extended: false,
        experimental: false,
        footer: false,
    }
}

fn v3_frame(id: &[u8], payload: &[u8]) -> Vec<u8> {
    let mut buf = id.to_vec();
    buf.extend_from_slice(&(payload.len() as u32).to_be_bytes());
    buf.extend_from_slice(&[0, 0]);
    buf.extend_from_slice(payload);
    buf
}

fn latin1_frame(id: &[u8], text: &str) -> Vec<u8> {
    let mut payload = vec![0u8];
    payload.extend_from_slice(text.as_bytes());
    v3_frame(id, &payload)
}

fn id3v2_file(version: u8, flags: u8, frames: &[u8]) -> Vec<u8> {
    let n = frames.len() as u32;
    let mut data = vec![b'I', b'D', b'3', version, 0, flags];
    data.extend_from_slice(&[
        ((n >> 21) & 0x7f) as u8,
        ((n >> 14) & 0x7f) as u8,
        ((n >> 7) & 0x7f) as u8,
        (n & 0x7f) as u8,
    ]);
    data.extend_from_slice(frames);
    data
}

fn id3v1_block(title: &str, artist: &str, album: &str, comment: &[u8], b125: u8, b126: u8) -> Vec<u8> {
    let mut block = vec![0u8; 128];
    block[0..3].copy_from_slice(b"TAG");
    block[3..3 + title.len()].copy_from_slice(title.as_bytes());
    block[33..33 + artist.len()].copy_from_slice(artist.as_bytes());
    block[63..63 + album.len()].copy_from_slice(album.as_bytes());
    block[93..97].copy_from_slice(b"1999");
    block[97..97 + comment.len()].copy_from_slice(comment);
    block[125] = b125;
    block[126] = b126;
    block[127] = 17;
    block
}

#[test]
fn tag_header_is_read() {
    let h = parse_tag_header(b"ID3\x03\x01\x00\x00\x00\x02\x01").unwrap();
    assert_eq!(
        h,
        TagHeader {
            major_version: 3,
            rev_num: 1,
            size: 257,
            unsynch: false,
            extended: false,
            experimental: false,
            footer: false
        }
    );
    let h = parse_tag_header(b"ID3\x04\x00\xf0\x7f\x7f\x7f\x7f trailing").unwrap();
    assert_eq!(h.major_version, 4);
    assert_eq!(h.size, 0x0fff_ffff);
    assert!(h.unsynch && h.extended && h.experimental && h.footer);
}

#[test]
fn tag_header_flags_one_by_one() {
    let flags = |b: u8| {
        let h = parse_tag_header(&[b'I', b'D', b'3', 4, 0, b, 0, 0, 0, 1]).unwrap();
        (h.unsynch, h.extended, h.experimental, h.footer)
    };
    assert_eq!(flags(0x80), (true, false, false, false));
    assert_eq!(flags(0x40), (false, true, false, false));
    assert_eq!(flags(0x20), (false, false, true, false));
    assert_eq!(flags(0x10), (false, false, false, true));
    assert_eq!(flags(0x0f), (false, false, false, false));
}

#[test]
fn tag_header_that_is_malformed() {
    assert_eq!(parse_tag_header(b"ID3\x03\x00\x00\x00\x00\x02"), Err(Error::Malformed));
    assert_eq!(parse_tag_header(b""), Err(Error::Malformed));
    assert_eq!(parse_tag_header(b"ID3\x03\x00\x00\x80\x00\x00\x00"), Err(Error::Malformed));
    assert_eq!(parse_tag_header(b"ID3\x03\x00\x00\x00\x80\x00\x00"), Err(Error::Malformed));
    assert_eq!(parse_tag_header(b"ID3\x03\x00\x00\x00\x00\x80\x00"), Err(Error::Malformed));
    assert_eq!(parse_tag_header(b"ID3\x03\x00\x00\x00\x00\x00\xff"), Err(Error::Malformed));
}

#[test]
fn footer_is_ten_bytes() {
    assert_eq!(sizeof_footer(), 10);
}

#[test]
fn default_tag_has_no_fields() {
    let tag = Tag::default();
    assert_eq!(tag.title(), None);
    assert_eq!(tag.artist(), None);
    assert_eq!(tag.album(), None);
    assert_eq!(tag.year(), None);
    assert_eq!(tag.comment(), None);
    assert_eq!(tag.track(), None);
    assert_eq!(tag.genre(), None);
}

#[test]
fn frames_are_read_until_padding() {
    let mut buf = latin1_frame(b"TIT2", "Song");
    buf.extend(latin1_frame(b"TPE1", "Band"));
    buf.extend(latin1_frame(b"TALB", "Record"));
    buf.extend(latin1_frame(b"TCON", "Rock"));
    buf.extend_from_slice(&[0u8; 32]);
    let tag = Tag::from_buffer(&buf, &header(3)).unwrap();
    assert_eq!(tag.title(), Some("Song".to_string()));
    assert_eq!(tag.artist(), Some("Band".to_string()));
    assert_eq!(tag.album(), Some("Record".to_string()));
    assert_eq!(tag.genre(), Some("Rock".to_string()));
    assert_eq!(tag.comment(), None);
    assert_eq!(tag.year(), None);
    assert_eq!(tag.track(), None);
}

#[test]
fn year_and_track_are_stored_as_zero() {
    let mut buf = latin1_frame(b"TDRC", "1999");
    buf.extend(latin1_frame(b"TRCK", "7"));
    buf.extend_from_slice(&[0u8; 16]);
    let tag = Tag::from_buffer(&buf, &header(4)).unwrap();
    assert_eq!(tag.year(), Some(0));
    assert_eq!(tag.track(), Some(0));
    let legacy = {
        let mut b = latin1_frame(b"TYER", "1999");
        b.extend_from_slice(&[0u8; 16]);
        b
    };
    let tag = Tag::from_buffer(&legacy, &header(3)).unwrap();
    assert_eq!(tag.year(), None);
}

#[test]
fn comment_frames_are_not_decoded() {
    let mut buf = latin1_frame(b"COMM", "engHello");
    buf.extend_from_slice(&[0u8; 16]);
    let tag = Tag::from_buffer(&buf, &header(3)).unwrap();
    assert_eq!(tag.comment(), None);
}

#[test]
fn later_frame_of_one_identifier_wins() {
    let mut buf = latin1_frame(b"TIT2", "First");
    buf.extend(latin1_frame(b"TPE1", "Band"));
    buf.extend(latin1_frame(b"TIT2", "Second"));
    buf.extend_from_slice(&[0u8; 16]);
    let tag = Tag::from_buffer(&buf, &header(3)).unwrap();
    assert_eq!(tag.title(), Some("Second".to_string()));
    assert_eq!(tag.artist(), Some("Band".to_string()));
}

#[test]
fn frames_end_where_less_than_a_header_is_left() {
    let only = latin1_frame(b"TIT2", "x");
    let tag = Tag::from_buffer(&only, &header(3)).unwrap();
    assert_eq!(tag.title(), Some("x".to_string()));
    let tag = Tag::from_buffer(&only[..10], &header(3)).unwrap();
    assert_eq!(tag.title(), Some(String::new()));
    let tag = Tag::from_buffer(&only[..9], &header(3)).unwrap();
    assert_eq!(tag.title(), None);
    let tag = Tag::from_buffer(&[], &header(3)).unwrap();
    assert_eq!(tag.title(), None);
    let tag = Tag::from_buffer(b"TIT", &header(2)).unwrap();
    assert_eq!(tag.title(), None);
    let mut two = latin1_frame(b"TIT2", "x");
    two.extend_from_slice(b"TALB\x00\x00\x00\x01\x00");
    let tag = Tag::from_buffer(&two, &header(3)).unwrap();
    assert_eq!(tag.title(), Some("x".to_string()));
    assert_eq!(tag.album(), None);
}

#[test]
fn frames_end_at_something_that_is_no_frame() {
    let mut buf = latin1_frame(b"TIT2", "Song");
    buf.extend(v3_frame(b"TPE1", &[]));
    buf.extend(latin1_frame(b"TALB", "Record"));
    let tag = Tag::from_buffer(&buf, &header(3)).unwrap();
    assert_eq!(tag.title(), Some("Song".to_string()));
    assert_eq!(tag.artist(), None);
    assert_eq!(tag.album(), None);
}

#[test]
fn padding_with_a_footer_is_malformed() {
    let mut buf = latin1_frame(b"TIT2", "Song");
    buf.extend_from_slice(&[0u8; 16]);
    buf.extend_from_slice(b"3DI\x04\x00\x10\x00\x00\x00\x00");
    let mut h = header(4);
    h.footer = true;
    assert!(matches!(Tag::from_buffer(&buf, &h), Err(Error::Malformed)));
    h.footer = false;
    let tag = Tag::from_buffer(&buf, &h).unwrap();
    assert_eq!(tag.title(), Some("Song".to_string()));
}

#[test]
fn frames_stop_before_the_footer() {
    let mut buf = latin1_frame(b"TIT2", "Song");
    buf.extend(latin1_frame(b"TPE1", "Band"));
    buf.extend_from_slice(b"TALB\x00\x00\x00\x02\x00\x00");
    let mut h = header(4);
    h.footer = true;
    let tag = Tag::from_buffer(&buf, &h).unwrap();
    assert_eq!(tag.title(), Some("Song".to_string()));
    assert_eq!(tag.artist(), Some("Band".to_string()));
    assert_eq!(tag.album(), None);
}

#[test]
fn error_in_a_frame_fails_the_tag() {
    let mut buf = latin1_frame(b"TIT2", "Song");
    let mut compressed = latin1_frame(b"TPE1", "Band");
    compressed[9] = 0x80;
    buf.extend(compressed);
    buf.extend_from_slice(&[0u8; 16]);
    assert!(matches!(Tag::from_buffer(&buf, &header(3)), Err(Error::Unsupported)));
    let mut bad = latin1_frame(b"TIT2", "Song");
    bad.extend(latin1_frame(b"tpe1", "Band"));
    bad.extend_from_slice(&[0u8; 16]);
    assert!(matches!(Tag::from_buffer(&bad, &header(3)), Err(Error::Malformed)));
}

#[test]
fn whole_tag_unsynchronisation_before_version_4() {
    let mut buf = v3_frame(b"TIT2", &[0x00, b'A', 0xff, b'B']);
    buf.insert(13, 0x00);
    buf.extend_from_slice(&[0u8; 16]);
    let mut h = header(3);
    h.unsynch = true;
    let tag = Tag::from_buffer(&buf, &h).unwrap();
    assert_eq!(tag.title(), Some("A\u{ff}B".to_string()));
    h.unsynch = false;
    let tag = Tag::from_buffer(&buf, &h).unwrap();
    assert_eq!(tag.title(), Some("A\u{ff}".to_string()));
}

#[test]
fn id3v1_with_track_number() {
    let block = id3v1_block("Song", "Band", "Record", b"A comment", 0, 5);
    let tag = Tag::id3v1_from_file(&block, 0).unwrap();
    assert_eq!(tag.title(), Some("Song".to_string()));
    assert_eq!(tag.artist(), Some("Band".to_string()));
    assert_eq!(tag.album(), Some("Record".to_string()));
    assert_eq!(tag.comment(), Some("A comment".to_string()));
    assert_eq!(tag.track(), Some(5));
    assert_eq!(tag.year(), None);
    assert_eq!(tag.genre(), None);
}

#[test]
fn id3v1_comment_spans_to_byte_125_with_a_track() {
    let comment = [b'c'; 30];
    let block = id3v1_block("Song", "Band", "Record", &comment, 0, 5);
    let tag = Tag::id3v1_from_file(&block, 0).unwrap();
    assert_eq!(tag.comment(), Some("c".repeat(28)));
    assert_eq!(tag.track(), Some(5));
}

#[test]
fn id3v1_without_track_number() {
    let comment = [b'c'; 30];
    let both_zero = id3v1_block("Song", "Band", "Record", &comment[..28], 0, 0);
    let tag = Tag::id3v1_from_file(&both_zero, 0).unwrap();
    assert_eq!(tag.track(), None);
    assert_eq!(tag.comment(), Some("c".repeat(28)));
    let text = id3v1_block("Song", "Band", "Record", &comment, b'c', b'c');
    let tag = Tag::id3v1_from_file(&text, 0).unwrap();
    assert_eq!(tag.track(), None);
    assert_eq!(tag.comment(), Some("c".repeat(30)));
    let zero_track = id3v1_block("Song", "Band", "Record", &comment, b'c', 0);
    let tag = Tag::id3v1_from_file(&zero_track, 0).unwrap();
    assert_eq!(tag.track(), None);
    assert_eq!(tag.comment(), Some("c".repeat(29)));
}

#[test]
fn id3v1_at_an_offset() {
    let mut data = vec![0xffu8; 40];
    data.extend(id3v1_block("Song", "Band", "Record", b"", 0, 9));
    let tag = Tag::id3v1_from_file(&data, 40).unwrap();
    assert_eq!(tag.title(), Some("Song".to_string()));
    assert_eq!(tag.comment(), Some(String::new()));
    assert_eq!(tag.track(), Some(9));
    assert!(matches!(Tag::id3v1_from_file(&data, 41), Err(Error::Truncated)));
    assert!(matches!(Tag::id3v1_from_file(&data, 168), Err(Error::Truncated)));
    assert!(matches!(Tag::id3v1_from_file(&data, 169), Err(Error::Truncated)));
    assert!(matches!(Tag::id3v1_from_file(&data, u64::MAX), Err(Error::Truncated)));
    assert!(matches!(Tag::id3v1_from_file(&[], 0), Err(Error::Truncated)));
}

#[test]
fn id3v2_from_the_bytes_of_a_file() {
    let mut frames = latin1_frame(b"TIT2", "Song");
    frames.extend_from_slice(&[0u8; 16]);
    let mut data = id3v2_file(3, 0, &frames);
    data.extend_from_slice(&[0xff, 0xfb, 0x90, 0x00]);
    let tag = Tag::id3v2_from_file(&data, 0).unwrap();
    assert_eq!(tag.title(), Some("Song".to_string()));
    let mut shifted = vec![0u8; 7];
    shifted.extend_from_slice(&data);
    let tag = Tag::id3v2_from_file(&shifted, 7).unwrap();
    assert_eq!(tag.title(), Some("Song".to_string()));
}

#[test]
fn id3v2_that_cannot_be_read() {
    let frames = latin1_frame(b"TIT2", "Song");
    let data = id3v2_file(3, 0, &frames);
    assert!(matches!(Tag::id3v2_from_file(&data[..data.len() - 1], 0), Err(Error::Truncated)));
    assert!(matches!(Tag::id3v2_from_file(&data[..9], 0), Err(Error::Truncated)));
    assert!(matches!(Tag::id3v2_from_file(&data, data.len() as u64 - 9), Err(Error::Truncated)));
    assert!(matches!(Tag::id3v2_from_file(&data, u64::MAX), Err(Error::Truncated)));
    let empty = id3v2_file(3, 0, &[]);
    assert!(matches!(Tag::id3v2_from_file(&empty, 0), Err(Error::Malformed)));
    let mut bad_size = data.clone();
    bad_size[6] = 0x80;
    assert!(matches!(Tag::id3v2_from_file(&bad_size, 0), Err(Error::Malformed)));
}

#[test]
fn unify_prefers_the_first_tag() {
    let mut frames = latin1_frame(b"TIT2", "From v2");
    frames.extend_from_slice(&[0u8; 16]);
    let v2 = Tag::from_buffer(&frames, &header(3)).unwrap();
    let v1 = Tag::id3v1_from_file(&id3v1_block("From v1", "Band", "Record", b"", 0, 3), 0).unwrap();
    let tag = Tag::unify(vec![Rc::new(v2), Rc::new(v1)]);
    assert_eq!(tag.title(), Some("From v2".to_string()));
    assert_eq!(tag.artist(), Some("Band".to_string()));
    assert_eq!(tag.album(), Some("Record".to_string()));
    assert_eq!(tag.track(), Some(3));
}

#[test]
fn unify_replaces_utf16_text() {
    let mut frames = v3_frame(b"TIT2", &[0x01, 0xff, 0xfe, b'X', 0x00]);
    frames.extend(v3_frame(b"TPE1", &[0x02, 0x00, b'Y']));
    frames.extend(v3_frame(b"TCON", &[0x01, 0xff, 0xfe, b'Z', 0x00]));
    frames.extend_from_slice(&[0u8; 16]);
    let v2 = Tag::from_buffer(&frames, &header(3)).unwrap();
    assert_eq!(v2.title(), Some("X".to_string()));
    assert_eq!(v2.artist(), Some("Y".to_string()));
    let v1 = Tag::id3v1_from_file(&id3v1_block("From v1", "Band", "Record", b"", 0, 0), 0).unwrap();
    let tag = Tag::unify(vec![Rc::new(v2), Rc::new(v1)]);
    assert_eq!(tag.title(), Some("From v1".to_string()));
    assert_eq!(tag.artist(), Some("Y".to_string()));
    assert_eq!(tag.genre(), Some("Z".to_string()));
    assert_eq!(tag.album(), Some("Record".to_string()));
}

#[test]
fn unify_of_no_tag_and_of_one() {
    let none = Tag::unify(vec![]);
    assert_eq!(none.title(), None);
    let v1 = Tag::id3v1_from_file(&id3v1_block("Song", "Band", "Record", b"text", 0, 2), 0).unwrap();
    let one = Tag::unify(vec![Rc::new(v1), Rc::new(Tag::default())]);
    assert_eq!(one.title(), Some("Song".to_string()));
    assert_eq!(one.comment(), Some("text".to_string()));
    assert_eq!(one.track(), Some(2));
}

#[test]
fn unify_takes_the_third_tag_only_for_what_is_missing_or_unreliable() {
    let utf16 = {
        let mut f = v3_frame(b"TIT2", &[0x01, 0xff, 0xfe, b'X', 0x00]);
        f.extend_from_slice(&[0u8; 16]);
        Tag::from_buffer(&f, &header(3)).unwrap()
    };
    let second = {
        let mut f = v3_frame(b"TIT2", &[0x01, 0xff, 0xfe, b'Y', 0x00]);
        f.extend(latin1_frame(b"TALB", "Second"));
        f.extend_from_slice(&[0u8; 16]);
        Tag::from_buffer(&f, &header(3)).unwrap()
    };
    let third = {
        let mut f = latin1_frame(b"TIT2", "Third");
        f.extend(latin1_frame(b"TALB", "Third"));
        f.extend(latin1_frame(b"TPE1", "Third"));
        f.extend_from_slice(&[0u8; 16]);
        Tag::from_buffer(&f, &header(3)).unwrap()
    };
    let tag = Tag::unify(vec![Rc::new(utf16), Rc::new(second), Rc::new(third)]);
    assert_eq!(tag.title(), Some("Third".to_string()));
    assert_eq!(tag.album(), Some("Second".to_string()));
    assert_eq!(tag.artist(), Some("Third".to_string()));
}

#[test]
fn frames_are_stored_one_by_one() {
    let mut tag = Tag::default();
    tag.insert_frame(Frame {
        size: 5,
        frame_id: "TIT2".to_string(),
        sub: SubClass::Text("Song".to_string(), StringType::UTF8),
    });
    tag.insert_frame(Frame {
        size: 5,
        frame_id: "TDRC".to_string(),
        sub: SubClass::Text("1999".to_string(), StringType::UTF8),
    });
    tag.insert_frame(Frame { size: 2, frame_id: "TRCK".to_string(), sub: SubClass::Unknown });
    tag.insert_frame(Frame { size: 2, frame_id: "COMM".to_string(), sub: SubClass::Unknown });
    assert_eq!(tag.title(), Some("Song".to_string()));
    assert_eq!(tag.year(), Some(0));
    assert_eq!(tag.track(), Some(0));
    assert_eq!(tag.comment(), None);
    tag.insert_frame(Frame {
        size: 6,
        frame_id: "TIT2".to_string(),
        sub: SubClass::Text("Other".to_string(), StringType::Latin1),
    });
    assert_eq!(tag.title(), Some("Other".to_string()));
}

#[test]
fn unify_of_tags_built_frame_by_frame() {
    let title = |text: &str, kind: StringType| {
        let mut tag = Tag::default();
        tag.insert_frame(Frame {
            size: 1,
            frame_id: "TIT2".to_string(),
            sub: SubClass::Text(text.to_string(), kind),
        });
        Rc::new(tag)
    };
    let tag = Tag::unify(vec![title("v2", StringType::UTF8), title("v1", StringType::UTF8)]);
    assert_eq!(tag.title(), Some("v2".to_string()));
    let tag = Tag::unify(vec![title("v2", StringType::UTF16), title("v1", StringType::UTF8)]);
    assert_eq!(tag.title(), Some("v1".to_string()));
    let tag = Tag::unify(vec![title("v2", StringType::UTF16be), title("v1", StringType::UTF8)]);
    assert_eq!(tag.title(), Some("v2".to_string()));
}
