use audiotag::formats::meta::{genre, TagData, GENRE_COUNT, GENRE_LIST};

#[test]
fn genre_numbers_count_from_one() {
    assert_eq!(genre(1), Some("Blues"));
    assert_eq!(genre(1), Some(GENRE_LIST[0]));
    assert_eq!(genre(2), Some("Classic Rock"));
    assert_eq!(genre(18), Some("Rock"));
    assert_eq!(genre(80), Some("Hard Rock"));
    assert_eq!(genre(148), Some("Synthpop"));
}

#[test]
fn genre_numbers_outside_the_table_have_no_name() {
    assert_eq!(genre(0), None);
    assert_eq!(genre(GENRE_COUNT + 1), None);
    assert_eq!(genre(usize::MAX), None);
    assert_eq!(GENRE_COUNT, GENRE_LIST.len());
}

#[test]
fn tag_data_clones_to_an_equal_value() {
    let values = vec![
        TagData::Empty,
        TagData::Bool(true),
        TagData::Uint(7),
        TagData::IntPair(1, 2),
        TagData::Str("text".to_string()),
        TagData::Unimplemented,
    ];
    for v in &values {
        assert_eq!(&v.clone(), v);
    }
}
