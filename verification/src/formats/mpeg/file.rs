//! An MPEG audio file: where its tags stand, and the one tag that they make
//! together.

use vstd::prelude::*;
use std::rc::Rc;
use crate::formats::error::Error;
use crate::formats::meta::share;
use crate::formats::mpeg::frame::SubValue;
use crate::formats::mpeg::tag::{id3v1_tag, id3v2_tag, tag_views, unified, Tag};

verus! {

/// The kinds of tag that an MPEG audio file may carry.
#[derive(Clone, Copy, Debug, PartialEq, Eq, Structural)]
pub enum Id3Version {
    ID3v2,
    ID3v1,
    APE,
}

/// Where the ID3v2 tag of a file stands. It stands at the very start, where
/// the file opens with `ID3`. A file that opens with the sync pattern of an
/// MPEG frame has none. Any other start is taken for damage.
pub open spec fn id3v2_location(data: Seq<u8>) -> Result<Option<u64>, Error> {
    if data.len() < 3 {
        Err(Error::Truncated)
    } else if data[0] == 0x49 && data[1] == 0x44 && data[2] == 0x33 {
        Ok(Some(0))
    } else if data[0] == 0xFF && data[1] != 0xFF && data[1] & 0xE0 == 0xE0 {
        Ok(None)
    } else {
        Err(Error::Malformed)
    }
}

/// Where the ID3v1 tag of a file stands: in its last 128 bytes, where they
/// open with `TAG`.
pub open spec fn id3v1_location(data: Seq<u8>) -> Result<Option<u64>, Error> {
    if data.len() < 128 {
        Err(Error::Truncated)
    } else if data[data.len() - 128] == 0x54 && data[data.len() - 127] == 0x41 && data[data.len()
        - 126] == 0x47 {
        Ok(Some((data.len() - 128) as u64))
    } else {
        Ok(None)
    }
}

/// The tags of a file, the ID3v2 tag before the ID3v1 tag. A file without
/// any has not what is looked for.
pub open spec fn tag_locations(data: Seq<u8>) -> Result<Seq<(Id3Version, u64)>, Error> {
    match id3v2_location(data) {
        Err(e) => Err(e),
        Ok(v2) => match id3v1_location(data) {
            Err(e) => Err(e),
            Ok(v1) => {
                let first = match v2 {
                    Some(at) => seq![(Id3Version::ID3v2, at)],
                    None => Seq::empty(),
                };
                let second = match v1 {
                    Some(at) => seq![(Id3Version::ID3v1, at)],
                    None => Seq::empty(),
                };
                if (first + second).len() == 0 {
                    Err(Error::NotFound)
                } else {
                    Ok(first + second)
                }
            },
        },
    }
}

/// The fields of the tag of the given kind at `at`. An APE tag is not read:
/// it counts as a tag without fields.
pub open spec fn tag_at(data: Seq<u8>, kind: Id3Version, at: u64) -> Result<
    Map<Seq<char>, SubValue>,
    Error,
> {
    match kind {
        Id3Version::ID3v2 => id3v2_tag(data, at as int),
        Id3Version::ID3v1 => id3v1_tag(data, at as int),
        Id3Version::APE => Ok(Map::empty()),
    }
}

/// The tags at the given places, in their order; the first that cannot be
/// read gives its error to the whole.
pub open spec fn tags_at(data: Seq<u8>, places: Seq<(Id3Version, u64)>) -> Result<
    Seq<Map<Seq<char>, SubValue>>,
    Error,
>
    decreases places.len(),
{
    if places.len() == 0 {
        Ok(Seq::empty())
    } else {
        match tags_at(data, places.drop_last()) {
            Err(e) => Err(e),
            Ok(tags) => match tag_at(data, places.last().0, places.last().1) {
                Err(e) => Err(e),
                Ok(tag) => Ok(tags.push(tag)),
            },
        }
    }
}

/// The fields of an MPEG audio file: those of its tags, unified.
pub open spec fn file_fields(data: Seq<u8>) -> Result<Map<Seq<char>, SubValue>, Error> {
    match tag_locations(data) {
        Err(e) => Err(e),
        Ok(places) => match tags_at(data, places) {
            Err(e) => Err(e),
            Ok(tags) => Ok(unified(tags)),
        },
    }
}

/// Looks for an ID3v2 tag at the start of the file.
pub fn find_id3v2(data: &[u8]) -> (r: Result<Option<u64>, Error>)
    ensures
        r == id3v2_location(data@),
{
    if data.len() < 3 {
        return Err(Error::Truncated);
    }
    if data[0] == 0x49 && data[1] == 0x44 && data[2] == 0x33 {
        return Ok(Some(0));
    }
    if data[0] == 0xff && (data[1] != 0xff && ((data[1] & 0xe0) == 0xe0)) {
        return Ok(None);
    }
    Err(Error::Malformed)
}

/// Looks for an ID3v1 tag at the end of the file.
pub fn find_id3v1(data: &[u8]) -> (r: Result<Option<u64>, Error>)
    ensures
        r == id3v1_location(data@),
{
    if data.len() < 128 {
        return Err(Error::Truncated);
    }
    let at = data.len() - 128;
    if data[at] == 0x54 && data[at + 1] == 0x41 && data[at + 2] == 0x47 {
        return Ok(Some(at as u64));
    }
    Ok(None)
}

/// Looks for an APE tag. None is ever found: the format is not read.
pub fn find_ape(data: &[u8]) -> (r: Result<Option<u64>, Error>)
    ensures
        r == Ok::<Option<u64>, Error>(None),
{
    Ok(None)
}

/// Finds the tags of a file.
pub fn find_mpeg_tags(data: &[u8]) -> (r: Result<Vec<(Id3Version, u64)>, Error>)
    ensures
        match r {
            Ok(places) => tag_locations(data@) == Ok::<Seq<(Id3Version, u64)>, Error>(places@),
            Err(e) => tag_locations(data@) == Err::<Seq<(Id3Version, u64)>, Error>(e),
        },
{
    let mut tags: Vec<(Id3Version, u64)> = Vec::new();
    let v2 = match find_id3v2(data) {
        Ok(v2) => v2,
        Err(e) => {
            return Err(e);
        },
    };
    if let Some(location) = v2 {
        tags.push((Id3Version::ID3v2, location));
    }
    let ghost first = tags@;
    let v1 = match find_id3v1(data) {
        Ok(v1) => v1,
        Err(e) => {
            return Err(e);
        },
    };
    if let Some(location) = v1 {
        tags.push((Id3Version::ID3v1, location));
    }
    let ape = match find_ape(data) {
        Ok(ape) => ape,
        Err(e) => {
            return Err(e);
        },
    };
    if let Some(location) = ape {
        tags.push((Id3Version::APE, location));
    }
    proof {
        let second = match v1 {
            Some(at) => seq![(Id3Version::ID3v1, at)],
            None => Seq::empty(),
        };
        assert(tags@ =~= first + second);
    }
    if tags.len() == 0 {
        Err(Error::NotFound)
    } else {
        Ok(tags)
    }
}

/// An MPEG audio file, read.
pub struct File {
    tag: Rc<Tag>,
}

impl View for File {
    type V = Map<Seq<char>, SubValue>;

    /// The fields of the file's tag.
    closed spec fn view(&self) -> Map<Seq<char>, SubValue> {
        self.tag@
    }
}

impl File {
    /// Reads the tags of an MPEG audio file out of its bytes and unifies
    /// them.
    pub fn open(data: &[u8]) -> (r: Result<Self, Error>)
        ensures
            match r {
                Ok(file) => file_fields(data@) == Ok::<Map<Seq<char>, SubValue>, Error>(file@),
                Err(e) => file_fields(data@) == Err::<Map<Seq<char>, SubValue>, Error>(e),
            },
    {
        let places = match find_mpeg_tags(data) {
            Ok(places) => places,
            Err(e) => {
                return Err(e);
            },
        };
        let mut tags: Vec<Rc<Tag>> = Vec::new();
        let mut i: usize = 0;
        assert(tag_views(tags@) =~= Seq::empty());
        while i < places.len()
            invariant
                i <= places@.len(),
                tags_at(data@, places@.take(i as int)) == Ok::<
                    Seq<Map<Seq<char>, SubValue>>,
                    Error,
                >(tag_views(tags@)),
                tag_locations(data@) == Ok::<Seq<(Id3Version, u64)>, Error>(places@),
            decreases places@.len() - i,
        {
            let (kind, location) = places[i];
            let ghost before = tag_views(tags@);
            let ghost head = places@.take(i + 1);
            assert(head.drop_last() =~= places@.take(i as int));
            let read = match kind {
                Id3Version::ID3v2 => Tag::id3v2_from_file(data, location),
                Id3Version::ID3v1 => Tag::id3v1_from_file(data, location),
                Id3Version::APE => Ok(Tag::default()),
            };
            let tag = match read {
                Ok(tag) => tag,
                Err(e) => {
                    proof {
                        lemma_tags_at_error(data@, places@, i as int);
                    }
                    return Err(e);
                },
            };
            tags.push(Rc::new(tag));
            assert(tag_views(tags@) =~= before.push(tag@));
            i += 1;
        }
        assert(places@.take(i as int) =~= places@);
        if tags.len() == 0 {
            Err(Error::Unsupported)
        } else {
            Ok(File { tag: Rc::new(Tag::unify(tags)) })
        }
    }

    /// The tag of the file, shared.
    pub fn tag(&self) -> (tag: Rc<Tag>)
        ensures
            tag@ == self@,
    {
        share(&self.tag)
    }
}

/// Where the tag at one place cannot be read, and those before it can, the
/// tags of the whole list cannot be read, for the same reason.
proof fn lemma_tags_at_error(data: Seq<u8>, places: Seq<(Id3Version, u64)>, n: int)
    requires
        0 <= n < places.len(),
        tags_at(data, places.take(n)) is Ok,
        tag_at(data, places[n].0, places[n].1) is Err,
    ensures
        tags_at(data, places) == Err::<Seq<Map<Seq<char>, SubValue>>, Error>(
            tag_at(data, places[n].0, places[n].1)->Err_0,
        ),
    decreases places.len(),
{
    if n < places.len() - 1 {
        assert(places.drop_last().take(n) =~= places.take(n));
        lemma_tags_at_error(data, places.drop_last(), n);
    }
}

} // verus!
