use audiotag::formats::error::Error;
use audiotag::formats::mpeg::frame::{
    decode_text, decoded_text, holds_text, is_valid_id, sizeof_frame_header, utf16_units, valid_frame_id, Frame,
    Header, StringType, SubClass,
};
use audiotag::formats::mpeg::tag::TagHeader;

fn tag_header(version: u8) -> TagHeader {
    TagHeader {
        major_version: version,
        rev_num: 0,
        size: 0,
        unsynch: false,
        extended: false,
        experimental: false,
        footer: false,
    }
}

fn frame_v3(id: &[u8], flags: [u8; 2], payload: &[u8]) -> Vec<u8> {
    let mut buf = id.to_vec();
    buf.extend_from_slice(&(payload.len() as u32).to_be_bytes());
    buf.extend_from_slice(&flags);
    buf.extend_from_slice(payload);
    buf
}

fn frame_v4(id: &[u8], flags: [u8; 2], payload: &[u8]) -> Vec<u8> {
    let n = payload.len() as u32;
    let mut buf = id.to_vec();
    buf.extend_from_slice(&[
        ((n >> 21) & 0x7f) as u8,
        ((n >> 14) & 0x7f) as u8,
        ((n >> 7) & 0x7f) as u8,
        (n & 0x7f) as u8,
    ]);
    buf.extend_from_slice(&flags);
    buf.extend_from_slice(payload);
    buf
}

fn frame_v2(id: &[u8], payload: &[u8]) -> Vec<u8> {
    let n = payload.len() as u32;
    let mut buf = id.to_vec();
    buf.extend_from_slice(&[(n >> 16) as u8, (n >> 8) as u8, n as u8]);
    buf.extend_from_slice(payload);
    buf
}

fn text(s: &str, kind: StringType) -> SubClass {
    SubClass::Text(s.to_string(), kind)
}

#[test]
fn string_type_from_byte() {
    assert_eq!(StringType::from(0), StringType::Latin1);
    assert_eq!(StringType::from(1), StringType::UTF16);
    assert_eq!(StringType::from(2), StringType::UTF16be);
    assert_eq!(StringType::from(3), StringType::UTF8);
    assert_eq!(StringType::from(4), StringType::UTF16le);
    assert_eq!(StringType::from(5), StringType::Invalid);
    assert_eq!(StringType::from(255), StringType::Invalid);
}

#[test]
fn frame_header_length_by_version() {
    assert_eq!(sizeof_frame_header(0), 6);
    assert_eq!(sizeof_frame_header(2), 6);
    assert_eq!(sizeof_frame_header(3), 10);
    assert_eq!(sizeof_frame_header(4), 10);
    assert_eq!(sizeof_frame_header(255), 10);
}

#[test]
fn valid_frame_id_wants_four_capitals_or_digits() {
    assert!(valid_frame_id(b"TIT2"));
    assert!(valid_frame_id(b"AZ09"));
    assert!(!valid_frame_id(b"TIT"));
    assert!(!valid_frame_id(b"TIT22"));
    assert!(!valid_frame_id(b"tit2"));
    assert!(!valid_frame_id(b"TIT "));
    assert!(!valid_frame_id(b"TI@2"));
    assert!(!valid_frame_id(b"TI[2"));
    assert!(!valid_frame_id(b"TI/2"));
    assert!(!valid_frame_id(b"TI:2"));
    assert!(!valid_frame_id(b""));
}

#[test]
fn identifier_checks_on_text() {
    assert!(is_valid_id("TIT2"));
    assert!(is_valid_id("TT2"));
    assert!(is_valid_id(""));
    assert!(!is_valid_id("TiT2"));
    assert!(!is_valid_id("TT2\0"));
    assert!(!is_valid_id("T\u{c9}T2"));
    assert!(holds_text("TIT2"));
    assert!(holds_text("T"));
    assert!(holds_text("WFED"));
    assert!(holds_text("MVNM"));
    assert!(holds_text("MVIN"));
    assert!(!holds_text("WXXX"));
    assert!(!holds_text("COMM"));
    assert!(!holds_text(""));
}

#[test]
fn default_header_is_blank() {
    let h = Header::default(4);
    assert_eq!(h.frame_id, "");
    assert_eq!(h.size, 0);
    assert_eq!(h.version, 4);
    assert!(!h.data_length_indicator);
    assert!(!h.unsynch);
    assert!(!h.tag_alter_preservation);
    assert!(!h.file_alter_preservation);
    assert!(!h.read_only);
    assert!(!h.compression);
    assert!(!h.encryption);
    assert!(!h.grouping_ident);
}

#[test]
fn update_renames_legacy_identifiers() {
    for (old, new) in [("TORY", "TDOR"), ("TYER", "TDRC"), ("IPLS", "TIPL"), ("TIT2", "TIT2")] {
        let mut h = Header::default(3);
        h.frame_id = old.to_string();
        h.size = 9;
        h.read_only = true;
        assert!(h.update(3));
        assert_eq!(h.frame_id, new);
        assert_eq!(h.size, 9);
        assert_eq!(h.version, 3);
        assert!(h.read_only);
    }
}

#[test]
fn update_refuses_dropped_identifiers() {
    for id in ["CRM", "EQU", "LNK", "RVA", "TIM", "TDA", "TSI"] {
        let mut h = Header::default(2);
        h.frame_id = id.to_string();
        assert!(!h.update(2));
        assert_eq!(h.frame_id, id);
        let mut h = Header::default(3);
        h.frame_id = id.to_string();
        assert!(h.update(3));
    }
    for id in ["EQUA", "RVAD", "TIME", "TRDA", "TSIZ", "TDAT"] {
        let mut h = Header::default(3);
        h.frame_id = id.to_string();
        assert!(!h.update(3));
        let mut h = Header::default(4);
        h.frame_id = id.to_string();
        assert!(h.update(4));
        let mut h = Header::default(2);
        h.frame_id = id.to_string();
        assert!(h.update(2));
    }
}

#[test]
fn header_of_version_2() {
    let buf = frame_v2(b"TT2", &[0, b'H', b'i']);
    let h = Frame::get_header(&buf, 2).unwrap();
    assert_eq!(h.frame_id, "TT2");
    assert_eq!(h.size, 3);
    assert_eq!(h.version, 2);
    let h = Frame::get_header(&[b'T', b'T', b'2', 0x01, 0x02, 0x03], 2).unwrap();
    assert_eq!(h.size, 0x010203);
    let h = Frame::get_header(b"TT2\0\0", 2).unwrap();
    assert_eq!(h.frame_id, "TT2");
    assert_eq!(h.size, 0);
    assert_eq!(Frame::get_header(b"TT", 2), Err(Error::Truncated));
}

#[test]
fn header_of_version_3() {
    let buf = [b'T', b'I', b'T', b'2', 0x00, 0x00, 0x01, 0x80, 0xa0, 0x60];
    let h = Frame::get_header(&buf, 3).unwrap();
    assert_eq!(h.frame_id, "TIT2");
    assert_eq!(h.size, 0x180);
    assert!(h.tag_alter_preservation);
    assert!(!h.file_alter_preservation);
    assert!(h.read_only);
    assert!(!h.compression);
    assert!(h.encryption);
    assert!(h.grouping_ident);
    assert!(!h.unsynch);
    assert!(!h.data_length_indicator);
    let h = Frame::get_header(&buf[..9], 3).unwrap();
    assert_eq!(h.frame_id, "TIT2");
    assert_eq!(h.size, 0);
    assert!(!h.tag_alter_preservation);
    assert_eq!(Frame::get_header(b"TIT", 3), Err(Error::Truncated));
}

#[test]
fn header_of_version_4() {
    let buf = [b'T', b'I', b'T', b'2', 0x00, 0x00, 0x02, 0x01, 0x50, 0x4f];
    let h = Frame::get_header(&buf, 4).unwrap();
    assert_eq!(h.frame_id, "TIT2");
    assert_eq!(h.size, 257);
    assert!(h.tag_alter_preservation);
    assert!(!h.file_alter_preservation);
    assert!(h.read_only);
    assert!(h.grouping_ident);
    assert!(h.compression);
    assert!(h.encryption);
    assert!(h.unsynch);
    assert!(h.data_length_indicator);
    let plain = [b'T', b'I', b'T', b'2', 0x00, 0x00, 0x01, 0x80, 0x00, 0x00];
    let h = Frame::get_header(&plain, 4).unwrap();
    assert_eq!(h.size, 0x180);
    assert!(!h.unsynch);
    assert_eq!(Frame::get_header(b"TIT", 4), Err(Error::Truncated));
}

#[test]
fn field_data_cuts_the_payload() {
    let buf = frame_v3(b"TIT2", [0, 0], &[0, b'H', b'i']);
    let h = Frame::get_header(&buf, 3).unwrap();
    assert_eq!(Frame::field_data(&buf, &h), Ok(vec![0, b'H', b'i']));
    let mut longer = buf.clone();
    longer.extend_from_slice(b"next");
    assert_eq!(Frame::field_data(&longer, &h), Ok(vec![0, b'H', b'i']));
    assert_eq!(Frame::field_data(&buf[..12], &h), Ok(vec![0, b'H']));
    assert_eq!(Frame::field_data(&buf[..10], &h), Ok(vec![]));
    assert_eq!(Frame::field_data(&buf[..9], &h), Err(Error::Truncated));
    let buf2 = frame_v2(b"TT2", &[0, b'H', b'i']);
    let h2 = Frame::get_header(&buf2, 2).unwrap();
    assert_eq!(Frame::field_data(&buf2, &h2), Ok(vec![0, b'H', b'i']));
}

#[test]
fn field_data_with_a_data_length_indicator() {
    let buf = frame_v4(b"TIT2", [0, 0x01], &[0, 0, 0, 2, 0, b'H', b'i']);
    let h = Frame::get_header(&buf, 4).unwrap();
    assert!(h.data_length_indicator);
    assert_eq!(h.size, 7);
    assert_eq!(Frame::field_data(&buf, &h), Ok(vec![0, b'H']));
    let all = frame_v4(b"TIT2", [0, 0x01], &[0, 0, 0, 0x7f, 0, b'H', b'i']);
    assert_eq!(Frame::field_data(&all, &h), Ok(vec![0, b'H', b'i']));
    assert_eq!(Frame::field_data(&buf[..13], &h), Err(Error::Truncated));
}

#[test]
fn field_data_of_a_compressed_frame() {
    let buf = frame_v3(b"TIT2", [0, 0], &[0, 0, 0, 2, 0, b'H', b'i']);
    let mut h = Frame::get_header(&buf, 3).unwrap();
    h.compression = true;
    assert_eq!(Frame::field_data(&buf, &h), Err(Error::Unsupported));
    h.encryption = true;
    assert_eq!(Frame::field_data(&buf, &h), Ok(vec![0, b'H']));
}

#[test]
fn utf16_text_with_mark_decodes() {
    assert_eq!(
        decode_text(&[0x01, 0xff, 0xfe, 0x41, 0x00]),
        Ok(text("A", StringType::UTF16))
    );
    assert_eq!(
        decode_text(&[0x01, 0xff, 0xfe, 0x41, 0x00, 0x42, 0x00, 0x00, 0x00]),
        Ok(text("AB", StringType::UTF16))
    );
    assert_eq!(
        decode_text(&[0x01, 0xfe, 0xff, 0x00, 0x41, 0x20, 0xac]),
        Ok(text("A\u{20ac}", StringType::UTF16))
    );
    assert_eq!(
        decode_text(&[0x01, 0xff, 0xfe, 0x3d, 0xd8, 0x00, 0xde]),
        Ok(text("\u{1f600}", StringType::UTF16))
    );
}

#[test]
fn utf16_text_without_a_mark() {
    assert_eq!(
        decode_text(&[0x02, 0x00, 0x41, 0x00, 0x42]),
        Ok(text("AB", StringType::UTF16be))
    );
    assert_eq!(decode_text(&[0x02, 0x00, 0x41]), Ok(text("A", StringType::UTF16be)));
    assert_eq!(decode_text(&[0x04, 0x41, 0x00]), Ok(text("A", StringType::UTF16le)));
    assert_eq!(
        decode_text(&[0x04, 0x41, 0x00, 0xac, 0x20]),
        Ok(text("A\u{20ac}", StringType::UTF16le))
    );
    assert_eq!(
        decode_text(&[0x04, 0xff, 0xfe, 0x42, 0x00]),
        Ok(text("\u{feff}B", StringType::UTF16le))
    );
    assert_eq!(
        decode_text(&[0x02, 0xd8, 0x3d, 0xde, 0x00]),
        Ok(text("\u{1f600}", StringType::UTF16be))
    );
    assert_eq!(decode_text(&[0x02, 0x00]), Ok(text("", StringType::UTF16be)));
    assert_eq!(decode_text(&[0x04, 0x41]), Ok(text("", StringType::UTF16le)));
}

#[test]
fn utf16_text_with_a_mark_and_nothing_else() {
    assert_eq!(decode_text(&[0x01, 0x00]), Ok(text("", StringType::UTF16)));
    assert_eq!(decode_text(&[0x01, 0xff, 0xfe]), Ok(text("", StringType::UTF16)));
    assert_eq!(decode_text(&[0x01, 0xff, 0xfe, 0x41]), Ok(text("", StringType::UTF16)));
}

#[test]
fn utf16_text_that_does_not_decode() {
    assert_eq!(decode_text(&[0x01, 0xff, 0xfe, 0x00, 0xd8]), Err(Error::Malformed));
    assert_eq!(decode_text(&[0x02, 0x00, 0x00, 0xdc, 0x00]), Err(Error::Malformed));
    assert_eq!(decode_text(&[0x02, 0xd8, 0x00, 0x00, 0x41]), Err(Error::Malformed));
    assert_eq!(decode_text(&[0x04, 0x00, 0xd8]), Err(Error::Malformed));
    assert_eq!(decode_text(&[0x01, 0xff, 0xfe, 0x00, 0xd8, 0x00, 0xd8]), Err(Error::Malformed));
}

#[test]
fn latin1_and_utf8_text() {
    assert_eq!(decode_text(&[0x00, b'H', b'i']), Ok(text("Hi", StringType::Latin1)));
    assert_eq!(decode_text(&[0x00, b'H', b'i', 0, 0]), Ok(text("Hi", StringType::Latin1)));
    assert_eq!(decode_text(&[0x00, b'H', b'i', b'!']), Ok(text("Hi", StringType::Latin1)));
    assert_eq!(decode_text(&[0x00, 0xe9, b't', 0xe9]), Ok(text("\u{e9}t\u{e9}", StringType::Latin1)));
    assert_eq!(decode_text(&[0x00, 0, 0]), Ok(text("", StringType::Latin1)));
    assert_eq!(decode_text(&[0x03, b'H', b'i']), Ok(text("Hi", StringType::UTF8)));
    assert_eq!(decode_text(&[0x03, b'H', b'i', b'!', 0]), Ok(text("Hi!", StringType::UTF8)));
    assert_eq!(decode_text(&[0x03, 0xc3, 0xa9]), Ok(text("\u{e9}", StringType::UTF8)));
    assert_eq!(decode_text(&[0x03, 0xff, 0xfe]), Err(Error::Malformed));
    assert_eq!(decode_text(&[0x09, b'H', b'i']), Ok(text("Hi", StringType::Invalid)));
    assert_eq!(decode_text(&[0x09, b'H', b'i', 0]), Ok(text("Hi", StringType::Invalid)));
    assert_eq!(decode_text(&[0x09, b'H', b'i', b'!', 0]), Ok(text("Hi!\0", StringType::Invalid)));
}

#[test]
fn text_field_of_less_than_two_bytes() {
    assert_eq!(decode_text(&[]), Ok(text("", StringType::UTF16)));
    assert_eq!(decode_text(&[0x00]), Ok(text("", StringType::UTF16)));
    assert_eq!(decode_text(&[0x03]), Ok(text("", StringType::UTF16)));
}

#[test]
fn utf16_units_follow_the_mark() {
    let kind = StringType::UTF16;
    assert_eq!(utf16_units(&[0xff, 0xfe, 0x41, 0x00, 0x42, 0x01], kind), vec![0x0041, 0x0142]);
    assert_eq!(utf16_units(&[0xfe, 0xff, 0x41, 0x00, 0x42, 0x01], kind), vec![0x4100, 0x4201]);
    assert_eq!(utf16_units(&[0x00, 0x41, 0x00, 0x42], kind), vec![0x0042]);
    assert_eq!(utf16_units(&[0xff, 0xfe, 0x41], kind), Vec::<u16>::new());
    assert_eq!(utf16_units(&[0xff, 0xfe, 0x41, 0x00, 0x42], kind), vec![0x0041]);
    assert_eq!(utf16_units(&[0xff], kind), Vec::<u16>::new());
    assert_eq!(utf16_units(&[], kind), Vec::<u16>::new());
}

#[test]
fn utf16_units_follow_the_encoding_without_a_mark() {
    let be = StringType::UTF16be;
    let le = StringType::UTF16le;
    assert_eq!(utf16_units(&[0x00, 0x41, 0x01, 0x42], be), vec![0x0041, 0x0142]);
    assert_eq!(utf16_units(&[0x00, 0x41, 0x01, 0x42], le), vec![0x4100, 0x4201]);
    assert_eq!(utf16_units(&[0xff, 0xfe, 0x41, 0x00], be), vec![0xfffe, 0x4100]);
    assert_eq!(utf16_units(&[0xff, 0xfe, 0x41, 0x00], le), vec![0xfeff, 0x0041]);
    assert_eq!(utf16_units(&[0x41, 0x00, 0x42], le), vec![0x0041]);
    assert_eq!(utf16_units(&[0x41], le), Vec::<u16>::new());
    assert_eq!(utf16_units(&[], be), Vec::<u16>::new());
}

#[test]
fn header_with_a_given_identifier() {
    let buf = frame_v3(b"TT2\0", [0, 0x20], &[3, b'H', b'i']);
    let h = Frame::header_with_id(&buf, 3, "TT2".to_string()).unwrap();
    assert_eq!(h.frame_id, "TT2");
    assert_eq!(h.size, 3);
    assert_eq!(h.version, 3);
    assert!(h.grouping_ident);
    assert!(!h.compression);
    let h = Frame::header_with_id(&buf, 3, "other".to_string()).unwrap();
    assert_eq!(h.frame_id, "other");
    assert_eq!(Frame::header_with_id(b"TT2", 3, "TT2".to_string()), Err(Error::Truncated));
    assert_eq!(
        Frame::get_header(&buf, 3),
        Frame::header_with_id(&buf, 3, "TT2".to_string())
    );
}

#[test]
fn checks_on_a_given_identifier() {
    let buf = frame_v3(b"TT2\0", [0, 0], &[3, b'H', b'i']);
    let h = Frame::check_header(&buf, 3, "TT2".to_string()).unwrap().unwrap();
    assert_eq!(h.frame_id, "TT2");
    assert_eq!(h.size, 3);
    assert_eq!(Frame::check_header(&buf, 3, "TIT2".to_string()), Ok(None));
    assert_eq!(Frame::check_header(&buf, 3, "TT".to_string()), Ok(None));
    assert_eq!(Frame::check_header(&buf, 3, "Tt2".to_string()), Err(Error::Malformed));
    let full = frame_v3(b"TIT2", [0, 0], &[3, b'H', b'i']);
    assert!(matches!(Frame::check_header(&full, 3, "TIT2".to_string()), Ok(Some(_))));
    assert_eq!(Frame::check_header(&full, 3, "TT2".to_string()), Ok(None));
    let packed = frame_v3(b"TIT2", [0, 0x80], &[3, b'H', b'i']);
    assert_eq!(Frame::check_header(&packed, 3, "TIT2".to_string()), Err(Error::Unsupported));
    assert_eq!(Frame::check_header(b"TI", 3, "TI".to_string()), Err(Error::Truncated));
    assert_eq!(Frame::accept_header(&buf, 3), Frame::check_header(&buf, 3, "TT2".to_string()));
}

#[test]
fn frame_with_a_given_identifier() {
    let buf = frame_v3(b"TT2\0", [0, 0], &[3, b'H', b'i']);
    assert_eq!(
        Frame::from_buffer_with_id(&buf, &tag_header(3), "TT2".to_string()),
        Ok(Some(Frame { size: 3, frame_id: "TT2".to_string(), sub: text("Hi", StringType::UTF8) }))
    );
    assert_eq!(
        Frame::from_buffer_with_id(&buf, &tag_header(3), "TT2".to_string()),
        Frame::from_buffer(&buf, &tag_header(3))
    );
    let wide = frame_v3(b"TIT2", [0, 0], &[1, 0xff, 0xfe, 0x41, 0x00]);
    assert_eq!(
        Frame::from_buffer_with_id(&wide, &tag_header(3), "TIT2".to_string()),
        Ok(Some(Frame { size: 5, frame_id: "TIT2".to_string(), sub: text("A", StringType::UTF16) }))
    );
    assert_eq!(
        Frame::from_buffer_with_id(&wide, &tag_header(3), "COMM".to_string()),
        Ok(Some(Frame { size: 5, frame_id: "COMM".to_string(), sub: SubClass::Unknown }))
    );
    assert_eq!(Frame::from_buffer_with_id(&wide, &tag_header(3), "TIT".to_string()), Ok(None));
}

#[test]
fn frame_id_with_trailing_nul_is_shortened() {
    let buf = frame_v3(b"TT2\0", [0, 0], &[0, b'H', b'i']);
    let h = Frame::accept_header(&buf, 3).unwrap().unwrap();
    assert_eq!(h.frame_id, "TT2");
    assert_eq!(h.size, 3);
    assert_eq!(h.version, 3);
    let frame = Frame::from_buffer(&buf, &tag_header(3)).unwrap().unwrap();
    assert_eq!(
        frame,
        Frame { size: 3, frame_id: "TT2".to_string(), sub: text("Hi", StringType::Latin1) }
    );
}

#[test]
fn shortened_frame_id_is_held_to_the_three_character_rule() {
    let bad = frame_v3(b"Tt2\0", [0, 0], &[0, b'H', b'i']);
    assert_eq!(Frame::from_buffer(&bad, &tag_header(3)), Err(Error::Malformed));
    let short = frame_v3(b"TT\0\0", [0, 0], &[0, b'H', b'i']);
    assert_eq!(Frame::from_buffer(&short, &tag_header(3)), Ok(None));
    let v4 = frame_v4(b"TT2\0", [0, 0], &[0, b'H', b'i']);
    assert_eq!(Frame::from_buffer(&v4, &tag_header(4)), Ok(None));
}

#[test]
fn text_frame_of_each_version() {
    let v2 = frame_v2(b"TT2", &[0, b'H', b'i']);
    assert_eq!(
        Frame::from_buffer(&v2, &tag_header(2)),
        Ok(Some(Frame { size: 3, frame_id: "TT2".to_string(), sub: text("Hi", StringType::Latin1) }))
    );
    let v3 = frame_v3(b"TIT2", [0, 0], &[3, b'H', b'i']);
    assert_eq!(
        Frame::from_buffer(&v3, &tag_header(3)),
        Ok(Some(Frame { size: 3, frame_id: "TIT2".to_string(), sub: text("Hi", StringType::UTF8) }))
    );
    let v4 = frame_v4(b"TIT2", [0, 0], &[3, b'H', b'i']);
    assert_eq!(
        Frame::from_buffer(&v4, &tag_header(4)),
        Ok(Some(Frame { size: 3, frame_id: "TIT2".to_string(), sub: text("Hi", StringType::UTF8) }))
    );
}

#[test]
fn frame_keeps_the_identifier_it_was_written_with() {
    let buf = frame_v3(b"TYER", [0, 0], &[0, b'1', b'9', b'9', b'9']);
    assert_eq!(
        Frame::from_buffer(&buf, &tag_header(3)),
        Ok(Some(Frame {
            size: 5,
            frame_id: "TYER".to_string(),
            sub: text("1999", StringType::Latin1)
        }))
    );
    let people = frame_v3(b"IPLS", [0, 0], &[0, b'x']);
    assert_eq!(
        Frame::from_buffer(&people, &tag_header(3)),
        Ok(Some(Frame { size: 2, frame_id: "IPLS".to_string(), sub: text("x", StringType::Latin1) }))
    );
}

#[test]
fn frames_that_stay_undecoded() {
    for id in [&b"COMM"[..], b"APIC", b"WXXX", b"PRIV", b"USLT", b"XXXX", b"TDAT", b"TIME"] {
        let buf = frame_v3(id, [0, 0], &[0, b'H', b'i']);
        assert_eq!(
            Frame::from_buffer(&buf, &tag_header(3)),
            Ok(Some(Frame {
                size: 3,
                frame_id: String::from_utf8(id.to_vec()).unwrap(),
                sub: SubClass::Unknown
            }))
        );
    }
    let dropped = frame_v2(b"TDA", &[0, b'H', b'i']);
    assert_eq!(
        Frame::from_buffer(&dropped, &tag_header(2)),
        Ok(Some(Frame { size: 3, frame_id: "TDA".to_string(), sub: SubClass::Unknown }))
    );
    let kept = frame_v4(b"TDAT", [0, 0], &[0, b'H', b'i']);
    assert_eq!(
        Frame::from_buffer(&kept, &tag_header(4)),
        Ok(Some(Frame { size: 3, frame_id: "TDAT".to_string(), sub: text("Hi", StringType::Latin1) }))
    );
}

#[test]
fn frames_that_end_the_list() {
    let empty = frame_v3(b"TIT2", [0, 0], &[]);
    assert_eq!(Frame::from_buffer(&empty, &tag_header(3)), Ok(None));
    let mut long = frame_v3(b"TIT2", [0, 0], &[0, b'H', b'i']);
    long[7] = 14;
    assert_eq!(Frame::from_buffer(&long, &tag_header(3)), Ok(None));
    long[7] = 13;
    assert_eq!(
        Frame::from_buffer(&long, &tag_header(3)),
        Ok(Some(Frame { size: 13, frame_id: "TIT2".to_string(), sub: text("Hi", StringType::Latin1) }))
    );
    let padded_id = frame_v3(b"TIT ", [0, 0], &[0, b'H', b'i']);
    assert_eq!(Frame::from_buffer(&padded_id, &tag_header(3)), Ok(None));
    let blank = frame_v3(b"\0\0\0\0", [0, 0], &[0, b'H', b'i']);
    assert_eq!(Frame::from_buffer(&blank, &tag_header(3)), Ok(None));
    let short_header = b"TIT2\0\0\0";
    assert_eq!(Frame::from_buffer(short_header, &tag_header(3)), Ok(None));
    let small = frame_v4(b"TIT2", [0, 0x01], &[0, 0, 0, 0]);
    assert_eq!(Frame::from_buffer(&small, &tag_header(4)), Ok(None));
}

#[test]
fn frames_that_fail_the_parse() {
    let lower = frame_v3(b"TiT2", [0, 0], &[0, b'H', b'i']);
    assert_eq!(Frame::from_buffer(&lower, &tag_header(3)), Err(Error::Malformed));
    let symbols = frame_v3(b"T-T2", [0, 0], &[0, b'H', b'i']);
    assert_eq!(Frame::from_buffer(&symbols, &tag_header(3)), Err(Error::Malformed));
    let accent = frame_v3(b"TIT\xc9", [0, 0], &[0, b'H', b'i']);
    assert_eq!(Frame::from_buffer(&accent, &tag_header(3)), Err(Error::Malformed));
    let compressed = frame_v3(b"TIT2", [0, 0x80], &[0, b'H', b'i']);
    assert_eq!(Frame::from_buffer(&compressed, &tag_header(3)), Err(Error::Unsupported));
    let encrypted = frame_v3(b"TIT2", [0, 0x40], &[0, b'H', b'i']);
    assert_eq!(Frame::from_buffer(&encrypted, &tag_header(3)), Err(Error::Unsupported));
    let compressed4 = frame_v4(b"COMM", [0, 0x08], &[0, b'H', b'i']);
    assert_eq!(Frame::from_buffer(&compressed4, &tag_header(4)), Err(Error::Unsupported));
    let encrypted4 = frame_v4(b"COMM", [0, 0x04], &[0, b'H', b'i']);
    assert_eq!(Frame::from_buffer(&encrypted4, &tag_header(4)), Err(Error::Unsupported));
    let bad_text = frame_v3(b"TIT2", [0, 0], &[3, 0xff, 0xfe]);
    assert_eq!(Frame::from_buffer(&bad_text, &tag_header(3)), Err(Error::Malformed));
    assert_eq!(Frame::from_buffer(b"TI", &tag_header(3)), Err(Error::Truncated));
    assert_eq!(Frame::from_buffer(b"", &tag_header(2)), Err(Error::Truncated));
    let cut = frame_v4(b"TIT2", [0, 0x01], &[0, 0, 0, 2, 0]);
    assert_eq!(Frame::from_buffer(&cut[..13], &tag_header(4)), Err(Error::Truncated));
}

#[test]
fn unsynchronised_frame_of_version_4() {
    let buf = frame_v4(b"TIT2", [0, 0x02], &[0x00, 0xff, 0x00, b'A']);
    assert_eq!(
        Frame::from_buffer(&buf, &tag_header(4)),
        Ok(Some(Frame {
            size: 4,
            frame_id: "TIT2".to_string(),
            sub: text("\u{ff}AA", StringType::Latin1)
        }))
    );
    let plain = frame_v4(b"TIT2", [0, 0], &[0x00, 0xff, 0x00, b'A']);
    assert_eq!(
        Frame::from_buffer(&plain, &tag_header(4)),
        Ok(Some(Frame {
            size: 4,
            frame_id: "TIT2".to_string(),
            sub: text("\u{ff}\0A", StringType::Latin1)
        }))
    );
    let mut whole = tag_header(4);
    whole.unsynch = true;
    assert_eq!(
        Frame::from_buffer(&plain, &whole),
        Ok(Some(Frame {
            size: 4,
            frame_id: "TIT2".to_string(),
            sub: text("\u{ff}AA", StringType::Latin1)
        }))
    );
    let mut v3 = tag_header(3);
    v3.unsynch = true;
    let old = frame_v3(b"TIT2", [0, 0], &[0x00, 0xff, 0x00, b'A']);
    assert_eq!(
        Frame::from_buffer(&old, &v3),
        Ok(Some(Frame {
            size: 4,
            frame_id: "TIT2".to_string(),
            sub: text("\u{ff}\0A", StringType::Latin1)
        }))
    );
}

#[test]
fn sub_class_clones_to_an_equal_value() {
    for v in [text("x", StringType::UTF8), SubClass::Uint(3), SubClass::Unknown] {
        assert_eq!(v.clone(), v);
    }
}

#[test]
fn decoded_text_is_text_or_malformed() {
    assert_eq!(
        decoded_text(Some("A".to_string()), StringType::UTF16),
        Ok(text("A", StringType::UTF16))
    );
    assert_eq!(
        decoded_text(Some(String::new()), StringType::UTF8),
        Ok(text("", StringType::UTF8))
    );
    assert_eq!(decoded_text(None, StringType::UTF16), Err(Error::Malformed));
    assert_eq!(decoded_text(None, StringType::Invalid), Err(Error::Malformed));
}
