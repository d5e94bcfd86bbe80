use audiotag::formats::text::{latin1_string, str_eq, utf8_string};
use audiotag::formats::utils::{from_ascii, kept_length, trimmed_length};

#[test]
fn from_ascii_drops_trailing_padding() {
    assert_eq!(from_ascii(b"Title\0\0\0"), "Title");
    assert_eq!(from_ascii(b"Hello World   "), "Hello World");
    assert_eq!(from_ascii(b"abc!?"), "abc");
    assert_eq!(from_ascii(b"a b\0c\0"), "a b\0c");
}

#[test]
fn from_ascii_of_a_field_without_letters_is_empty() {
    assert_eq!(from_ascii(b"\0\0\0"), "");
    assert_eq!(from_ascii(b"  "), "");
    assert_eq!(from_ascii(b"?!"), "");
    assert_eq!(from_ascii(b""), "");
}

#[test]
fn from_ascii_reads_latin1() {
    assert_eq!(from_ascii(&[0x41, 0xe9, 0x20]), "A\u{e9}");
    assert_eq!(from_ascii(&[0xc4, 0x62, 0xa0, 0x00]), "\u{c4}b");
}

#[test]
fn trimmed_length_counts_the_kept_bytes() {
    assert_eq!(trimmed_length(b"Title\0\0\0"), 5);
    assert_eq!(trimmed_length(b"\0\0\0"), 0);
    assert_eq!(trimmed_length(b""), 0);
    assert_eq!(trimmed_length(b"x"), 1);
    assert_eq!(trimmed_length(b"7 "), 1);
}

#[test]
fn latin1_string_maps_each_byte_to_its_code_point() {
    assert_eq!(latin1_string(&[0xa9, b'n', b'a', b'm']), "\u{a9}nam");
    assert_eq!(latin1_string(b"moov"), "moov");
    assert_eq!(latin1_string(&[0x00, 0xff]), "\u{0}\u{ff}");
    assert_eq!(latin1_string(&[]), "");
}

#[test]
fn str_eq_compares_characters() {
    assert!(str_eq("moov", "moov"));
    assert!(!str_eq("moov", "moof"));
    assert!(!str_eq("moov", "moo"));
    assert!(str_eq("", ""));
    assert!(str_eq("\u{a9}nam", "\u{a9}nam"));
    assert!(!str_eq("\u{a9}nam", "\u{aa}nam"));
}

#[test]
fn utf8_string_decodes_or_refuses() {
    assert_eq!(utf8_string(b"Test"), Some("Test".to_string()));
    assert_eq!(utf8_string(&[0xc3, 0xa9]), Some("\u{e9}".to_string()));
    assert_eq!(utf8_string(&[]), Some(String::new()));
    assert_eq!(utf8_string(&[0xff, 0xfe]), None);
    assert_eq!(utf8_string(&[0xc3]), None);
    assert_eq!(utf8_string(&[0xed, 0xa0, 0x80]), None);
    assert_eq!(utf8_string(&[0xc0, 0x80]), None);
}

#[test]
fn kept_length_ends_behind_the_last_mark() {
    assert_eq!(kept_length(&[true, false, true, false]), 3);
    assert_eq!(kept_length(&[true, true]), 2);
    assert_eq!(kept_length(&[true, false, false]), 1);
    assert_eq!(kept_length(&[false, false, false]), 0);
    assert_eq!(kept_length(&[false]), 0);
    assert_eq!(kept_length(&[false, true]), 2);
    assert_eq!(kept_length(&[]), 0);
}
