//! What every tag is made of: the kinds of value a field can hold, and the
//! table of genre names.

use vstd::prelude::*;
use std::rc::Rc;

verus! {

/// The value of one field of a tag.
#[derive(Debug, PartialEq, Eq)]
pub enum TagData {
    Empty,
    Bool(bool),
    Uint(u64),
    IntPair(u32, u32),
    Str(String),
    Unimplemented,
}

/// A `TagData` as a mathematical value.
pub enum TagValue {
    Empty,
    Bool(bool),
    Uint(u64),
    IntPair(u32, u32),
    Str(Seq<char>),
    Unimplemented,
}

impl View for TagData {
    type V = TagValue;

    open spec fn view(&self) -> TagValue {
        match self {
            TagData::Empty => TagValue::Empty,
            TagData::Bool(b) => TagValue::Bool(*b),
            TagData::Uint(n) => TagValue::Uint(*n),
            TagData::IntPair(a, b) => TagValue::IntPair(*a, *b),
            TagData::Str(s) => TagValue::Str(s@),
            TagData::Unimplemented => TagValue::Unimplemented,
        }
    }
}

impl Clone for TagData {
    fn clone(&self) -> (copy: Self)
        ensures
            copy@ == self@,
    {
        match self {
            TagData::Empty => TagData::Empty,
            TagData::Bool(b) => TagData::Bool(*b),
            TagData::Uint(n) => TagData::Uint(*n),
            TagData::IntPair(a, b) => TagData::IntPair(*a, *b),
            TagData::Str(s) => TagData::Str(s.clone()),
            TagData::Unimplemented => TagData::Unimplemented,
        }
    }
}

/// How many genres have a name.
pub const GENRE_COUNT: usize = 148;

/// The names of the genres. A genre's number counts from 1: the genre 1 has
/// the first name.
pub const GENRE_LIST: [&'static str; 148] = [
    "Blues", "Classic Rock", "Country", "Dance",
    "Disco", "Funk", "Grunge", "Hip-Hop",
    "Jazz", "Metal", "New Age", "Oldies",
    "Other", "Pop", "R&B", "Rap",
    "Reggae", "Rock", "Techno", "Industrial",
    "Alternative", "Ska", "Death Metal", "Pranks",
    "Soundtrack", "Euro-Techno", "Ambient", "Trip-Hop",
    "Vocal", "Jazz+Funk", "Fusion", "Trance",
    "Classical", "Instrumental", "Acid", "House",
    "Game", "Sound Clip", "Gospel", "Noise",
    "Alternative Rock", "Bass", "Soul", "Punk",
    "Space", "Meditative", "Instrumental Pop", "Instrumental Rock",
    "Ethnic", "Gothic", "Darkwave", "Techno-Industrial",
    "Electronic", "Pop-Folk", "Eurodance", "Dream",
    "Southern Rock", "Comedy", "Cult", "Gangsta",
    "Top 40", "Christian Rap", "Pop/Funk", "Jungle",
    "Native American", "Cabaret", "New Wave", "Psychedelic",
    "Rave", "Showtunes", "Trailer", "Lo-Fi",
    "Tribal", "Acid Punk", "Acid Jazz", "Polka",
    "Retro", "Musical", "Rock & Roll", "Hard Rock",
    "Folk", "Folk-Rock", "National Folk", "Swing",
    "Fast Fusion", "Bebop", "Latin", "Revival",
    "Celtic", "Bluegrass", "Avantgarde", "Gothic Rock",
    "Progressive Rock", "Psychedelic Rock", "Symphonic Rock", "Slow Rock",
    "Big Band", "Chorus", "Easy Listening", "Acoustic",
    "Humour", "Speech", "Chanson", "Opera",
    "Chamber Music", "Sonata", "Symphony", "Booty Bass",
    "Primus", "Porn Groove", "Satire", "Slow Jam",
    "Club", "Tango", "Samba", "Folklore",
    "Ballad", "Power Ballad", "Rhythmic Soul", "Freestyle",
    "Duet", "Punk Rock", "Drum Solo", "A Cappella",
    "Euro-House", "Dance Hall", "Goa", "Drum & Bass",
    "Club-House", "Hardcore", "Terror", "Indie",
    "BritPop", "Negerpunk", "Polsk Punk", "Beat",
    "Christian Gangsta Rap", "Heavy Metal", "Black Metal", "Crossover",
    "Contemporary Christian", "Christian Rock", "Merengue", "Salsa",
    "Thrash Metal", "Anime", "JPop", "Synthpop",
];

/// The name of the genre with the given number, where it has one.
pub open spec fn genre_name(number: int) -> Option<Seq<char>> {
    if 1 <= number <= GENRE_COUNT {
        Some(GENRE_LIST[number - 1]@)
    } else {
        None
    }
}

/// Looks up the name of a genre by its number, which counts from 1.
pub fn genre(number: usize) -> (name: Option<&'static str>)
    ensures
        name is Some <==> 1 <= number <= GENRE_COUNT,
        name matches Some(s) ==> genre_name(number as int) == Some(s@),
{
    if number >= 1 && number <= GENRE_COUNT {
        Some(GENRE_LIST[number - 1])
    } else {
        None
    }
}

/// `Rc::clone` of the standard library: one more pointer to the same value.
#[verifier::external_body]
pub(crate) fn share<T>(value: &Rc<T>) -> (other: Rc<T>)
    ensures
        other == *value,
{
    Rc::clone(value)
}

} // verus!
