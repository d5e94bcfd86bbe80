//! ID3 tags: the ID3v2 tag header and frame list, the ID3v1 block, and the
//! merge of several tags into one.

use vstd::prelude::*;
use vstd::string::*;
use std::rc::Rc;
use crate::formats::dictionary::{as_map, distinct_keys, lemma_as_map_step, Dictionary};
use crate::formats::error::Error;
use crate::formats::mpeg::frame::{
    frame_header_len,
    frame_outcome,
    sizeof_frame_header,
    Frame,
    FrameModel,
    StringType,
    SubClass,
    SubValue,
};
use crate::formats::mpeg::synch::{
    decode_slice,
    int_from_buf,
    is_synchsafe,
    lemma_seven_bit_value_bound,
    seven_bit_value,
    unsynchronized,
};
use crate::formats::text::str_eq;
use crate::formats::utils::{ascii_text, from_ascii};

verus! {

/// The ten bytes in front of an ID3v2 tag.
#[derive(Clone, Copy, Debug, PartialEq, Eq, Structural)]
pub struct TagHeader {
    pub major_version: u8,
    pub rev_num: u8,
    /// The length of the tag behind the header.
    pub size: u64,
    pub unsynch: bool,
    pub extended: bool,
    pub experimental: bool,
    pub footer: bool,
}

/// What the ten header bytes say. Bytes 3 and 4 hold the version, byte 5 the
/// flags from bit 7 down (unsynchronisation, extended header, experimental,
/// footer), bytes 6 to 9 the synch-safe size. A header that is too short or
/// whose size bytes are not synch-safe is malformed.
pub open spec fn tag_header(buf: Seq<u8>) -> Result<TagHeader, Error> {
    if buf.len() < 10 {
        Err(Error::Malformed)
    } else if !is_synchsafe(buf.subrange(6, 10)) {
        Err(Error::Malformed)
    } else {
        Ok(
            TagHeader {
                major_version: buf[3],
                rev_num: buf[4],
                size: seven_bit_value(buf.subrange(6, 10)) as u64,
                unsynch: buf[5] & 0x80 != 0,
                extended: buf[5] & 0x40 != 0,
                experimental: buf[5] & 0x20 != 0,
                footer: buf[5] & 0x10 != 0,
            },
        )
    }
}

/// Reads the header of an ID3v2 tag.
pub fn parse_tag_header(buf: &[u8]) -> (r: Result<TagHeader, Error>)
    ensures
        r == tag_header(buf@),
        r matches Ok(h) ==> h.size < 0x1000_0000,
{
    if buf.len() < 10 {
        return Err(Error::Malformed);
    }
    let ghost field = buf@.subrange(6, 10);
    let mut i: usize = 6;
    while i < 10
        invariant
            6 <= i <= 10,
            buf@.len() >= 10,
            field == buf@.subrange(6, 10),
            forall|k: int| 0 <= k < i - 6 ==> field[k] < 128,
        decreases 10 - i,
    {
        if buf[i] >= 128 {
            assert(field[i - 6] >= 128);
            return Err(Error::Malformed);
        }
        i += 1;
    }
    proof {
        lemma_seven_bit_value_bound(field);
        assert(field.take(4) =~= field);
    }
    let flags = buf[5];
    Ok(
        TagHeader {
            major_version: buf[3],
            rev_num: buf[4],
            size: int_from_buf(&buf[6..10]) as u64,
            unsynch: flags & 0x80 != 0,
            extended: flags & 0x40 != 0,
            experimental: flags & 0x20 != 0,
            footer: flags & 0x10 != 0,
        },
    )
}

/// The length of the footer that may close an ID3v2 tag.
pub fn sizeof_footer() -> (n: usize)
    ensures
        n == 10,
{
    10
}

/// The fields of an ID3 tag, each under the identifier of its frame.
pub struct Tag {
    frame_map: Dictionary<SubClass>,
}

impl View for Tag {
    type V = Map<Seq<char>, SubValue>;

    closed spec fn view(&self) -> Map<Seq<char>, SubValue> {
        self.frame_map@
    }
}

/// What a frame is stored as. The year and the track number are not read
/// out of their text: a frame of either identifier is stored as the number
/// zero.
pub open spec fn stored_value(frame: FrameModel) -> SubValue {
    if frame.frame_id == "TDRC"@ || frame.frame_id == "TRCK"@ {
        SubValue::Uint(0)
    } else {
        frame.sub
    }
}

/// The frames that stand in `data` from `pos` on, in their order, each as
/// the identifier and the value it is stored under. `end` is where the frames
/// may reach to at most.
///
/// The list ends where fewer bytes are left than a frame header has, before
/// a zero byte (padding), and before anything that is no frame. Padding in a
/// tag that has a footer is malformed. An error in a frame is an error of the
/// whole list.
pub open spec fn frames_from(data: Seq<u8>, pos: int, end: int, tag: TagHeader) -> Result<
    Seq<(Seq<char>, SubValue)>,
    Error,
>
    decreases
            (if pos < data.len() {
                data.len() - pos
            } else {
                0
            }),
{
    if pos < 0 || end > data.len() || pos + frame_header_len(tag.major_version) > end {
        Ok(Seq::empty())
    } else if data[pos] == 0 {
        if tag.footer {
            Err(Error::Malformed)
        } else {
            Ok(Seq::empty())
        }
    } else {
        match frame_outcome(data.skip(pos), tag) {
            Err(e) => Err(e),
            Ok(None) => Ok(Seq::empty()),
            Ok(Some(frame)) => match frames_from(
                data,
                pos + frame.size + frame_header_len(tag.major_version),
                end,
                tag,
            ) {
                Err(e) => Err(e),
                Ok(rest) => Ok(seq![(frame.frame_id, stored_value(frame))] + rest),
            },
        }
    }
}

/// The map that comes of storing the pairs one after the other: of two with
/// one key the later one stays.
pub open spec fn collected(pairs: Seq<(Seq<char>, SubValue)>) -> Map<Seq<char>, SubValue>
    decreases pairs.len(),
{
    if pairs.len() == 0 {
        Map::empty()
    } else {
        collected(pairs.drop_last()).insert(pairs.last().0, pairs.last().1)
    }
}

/// Where the frames of a tag may reach to: the end of the data, or ten bytes
/// before it where the tag has a footer and the data holds one.
pub open spec fn frames_end(data: Seq<u8>, tag: TagHeader) -> int {
    if tag.footer && 10 <= data.len() {
        data.len() - 10
    } else {
        data.len() as int
    }
}

/// The fields of the tag whose data, behind the tag header, is `buf`.
/// Before ID3v2.4 an unsynchronised tag is freed of that as a whole, before
/// its frames are read.
pub open spec fn tag_frames(buf: Seq<u8>, tag: TagHeader) -> Result<
    Map<Seq<char>, SubValue>,
    Error,
> {
    let data = if tag.unsynch && tag.major_version <= 3 {
        unsynchronized(buf)
    } else {
        buf
    };
    match frames_from(data, 0, frames_end(data, tag), tag) {
        Err(e) => Err(e),
        Ok(pairs) => Ok(collected(pairs)),
    }
}

/// A list of frames with more frames put in front.
pub open spec fn prefixed(
    done: Seq<(Seq<char>, SubValue)>,
    rest: Result<Seq<(Seq<char>, SubValue)>, Error>,
) -> Result<Seq<(Seq<char>, SubValue)>, Error> {
    match rest {
        Err(e) => Err(e),
        Ok(pairs) => Ok(done + pairs),
    }
}

/// A tag replaced by its view.
pub open spec fn tag_view(r: Result<Tag, Error>) -> Result<Map<Seq<char>, SubValue>, Error> {
    match r {
        Ok(tag) => Ok(tag@),
        Err(e) => Err(e),
    }
}

/// The text stored under `key`, where text is stored there.
pub open spec fn text_at(fields: Map<Seq<char>, SubValue>, key: Seq<char>) -> Option<Seq<char>> {
    if fields.contains_key(key) {
        match fields[key] {
            SubValue::Text(s, _) => Some(s),
            _ => None,
        }
    } else {
        None
    }
}

/// The number stored under `key`, where a number is stored there.
pub open spec fn uint_at(fields: Map<Seq<char>, SubValue>, key: Seq<char>) -> Option<u64> {
    if fields.contains_key(key) {
        match fields[key] {
            SubValue::Uint(n) => Some(n),
            _ => None,
        }
    } else {
        None
    }
}

/// An optional string replaced by its view.
pub open spec fn text_view(s: Option<String>) -> Option<Seq<char>> {
    match s {
        Some(s) => Some(s@),
        None => None,
    }
}

/// A text field of an ID3v1 block.
pub open spec fn id3v1_text(field: Seq<u8>) -> SubValue {
    SubValue::Text(ascii_text(field), StringType::UTF8)
}

/// Whether an ID3v1 block is of the later kind, which gives the last two
/// bytes of the comment to a zero and the track number.
pub open spec fn has_track(block: Seq<u8>) -> bool {
    block[125] == 0 && block[126] != 0
}

/// The fields of an ID3v1 block of 128 bytes: title, artist and album of
/// thirty bytes each from byte 3 on, and the comment from byte 97 on. Where
/// the block holds a track number in byte 126, the comment ends before byte
/// 125; else it ends before byte 127 and there is no track number.
pub open spec fn id3v1_fields(block: Seq<u8>) -> Map<Seq<char>, SubValue> {
    let common = Map::<Seq<char>, SubValue>::empty().insert(
        "TIT2"@,
        id3v1_text(block.subrange(3, 33)),
    ).insert("TPE1"@, id3v1_text(block.subrange(33, 63))).insert(
        "TALB"@,
        id3v1_text(block.subrange(63, 93)),
    );
    if has_track(block) {
        common.insert("COMM"@, id3v1_text(block.subrange(97, 125))).insert(
            "TRCK"@,
            SubValue::Uint(block[126] as u64),
        )
    } else {
        common.insert("COMM"@, id3v1_text(block.subrange(97, 127)))
    }
}

/// The fields of the ID3v1 tag at `offset` in `data`.
pub open spec fn id3v1_tag(data: Seq<u8>, offset: int) -> Result<Map<Seq<char>, SubValue>, Error> {
    if offset + 128 > data.len() {
        Err(Error::Truncated)
    } else {
        Ok(id3v1_fields(data.subrange(offset, offset + 128)))
    }
}

/// The fields of the ID3v2 tag at `offset` in `data`: ten bytes of header,
/// then as many bytes of frames as the header says. A tag without any is
/// malformed.
pub open spec fn id3v2_tag(data: Seq<u8>, offset: int) -> Result<Map<Seq<char>, SubValue>, Error> {
    if offset + 10 > data.len() {
        Err(Error::Truncated)
    } else {
        match tag_header(data.subrange(offset, offset + 10)) {
            Err(e) => Err(e),
            Ok(header) => if header.size == 0 {
                Err(Error::Malformed)
            } else if offset + 10 + header.size > data.len() {
                Err(Error::Truncated)
            } else {
                tag_frames(data.subrange(offset + 10, offset + 10 + header.size), header)
            },
        }
    }
}

/// Whether a value is text that was read as UTF-16 with a byte order mark.
/// Such text is not relied on.
pub open spec fn is_unreliable(value: SubValue) -> bool {
    value matches SubValue::Text(_, kind) && kind == StringType::UTF16
}

/// Two tags as one. A field that only one of them has is taken from there.
/// Of a field that both have, the first tag's value stays, unless it is
/// unreliable: then the second tag's value takes its place.
pub open spec fn merged(first: Map<Seq<char>, SubValue>, second: Map<Seq<char>, SubValue>) -> Map<
    Seq<char>,
    SubValue,
> {
    Map::new(
        |key: Seq<char>| first.contains_key(key) || second.contains_key(key),
        |key: Seq<char>|
            if first.contains_key(key) && !(second.contains_key(key) && is_unreliable(first[key])) {
                first[key]
            } else {
                second[key]
            },
    )
}

/// A list of tags as one: each tag in turn is merged into what the tags
/// before it gave.
pub open spec fn unified(tags: Seq<Map<Seq<char>, SubValue>>) -> Map<Seq<char>, SubValue>
    decreases tags.len(),
{
    if tags.len() == 0 {
        Map::empty()
    } else {
        merged(unified(tags.drop_last()), tags.last())
    }
}

/// The views of a list of shared tags.
pub open spec fn tag_views(tags: Seq<Rc<Tag>>) -> Seq<Map<Seq<char>, SubValue>> {
    Seq::new(tags.len(), |i: int| tags[i]@)
}

/// Of a field that two tags have, the first tag's value is the unified one,
/// unless it is unreliable: then the second tag's value is.
pub proof fn lemma_unified_pair(
    first: Map<Seq<char>, SubValue>,
    second: Map<Seq<char>, SubValue>,
    key: Seq<char>,
)
    requires
        first.contains_key(key),
        second.contains_key(key),
    ensures
        unified(seq![first, second]).contains_key(key),
        unified(seq![first, second])[key] == if is_unreliable(first[key]) {
            second[key]
        } else {
            first[key]
        },
{
    reveal_with_fuel(unified, 3);
    assert(seq![first, second].drop_last() =~= seq![first]);
}

/// What an ID3v1 block says of the track and the comment. With a zero in
/// byte 125 and a track number in byte 126, the track is that number and the
/// comment is the text of bytes 97 to 124. Otherwise there is no track, and
/// the comment is the text of bytes 97 to 126.
pub proof fn lemma_id3v1_track_and_comment(block: Seq<u8>)
    ensures
        has_track(block) ==> uint_at(id3v1_fields(block), "TRCK"@) == Some(block[126] as u64)
            && text_at(id3v1_fields(block), "COMM"@) == Some(ascii_text(block.subrange(97, 125))),
        !has_track(block) ==> uint_at(id3v1_fields(block), "TRCK"@) is None && text_at(
            id3v1_fields(block),
            "COMM"@,
        ) == Some(ascii_text(block.subrange(97, 127))),
        text_at(id3v1_fields(block), "TIT2"@) == Some(ascii_text(block.subrange(3, 33))),
        text_at(id3v1_fields(block), "TPE1"@) == Some(ascii_text(block.subrange(33, 63))),
        text_at(id3v1_fields(block), "TALB"@) == Some(ascii_text(block.subrange(63, 93))),
{
    reveal_strlit("TIT2");
    reveal_strlit("TPE1");
    reveal_strlit("TALB");
    reveal_strlit("COMM");
    reveal_strlit("TRCK");
    assert("TPE1"@[1] != "TALB"@[1] && "TPE1"@[0] != "COMM"@[0] && "TPE1"@[1] != "TRCK"@[1]);
}

impl Tag {
    /// A tag without fields.
    pub fn default() -> (tag: Self)
        ensures
            tag@ == Map::<Seq<char>, SubValue>::empty(),
    {
        Self { frame_map: Dictionary::new() }
    }

    /// Stores a frame under its identifier, in place of what was stored
    /// there.
    pub fn insert_frame(&mut self, frame: Frame)
        ensures
            final(self)@ == old(self)@.insert(frame.frame_id@, stored_value(frame@)),
    {
        let key = frame.frame_id;
        let value = if str_eq(key.as_str(), "TDRC") || str_eq(key.as_str(), "TRCK") {
            SubClass::Uint(0)
        } else {
            frame.sub
        };
        self.frame_map.insert(key, value);
    }

    /// Reads the frames of `data`.
    fn read_frames(data: &[u8], header: &TagHeader) -> (r: Result<Tag, Error>)
        ensures
            tag_view(r) == (match frames_from(data@, 0, frames_end(data@, *header), *header) {
                Err(e) => Err(e),
                Ok(pairs) => Ok(collected(pairs)),
            }),
    {
        let mut end: usize = data.len();
        if header.footer && sizeof_footer() <= end {
            end -= sizeof_footer();
        }
        let header_len = sizeof_frame_header(header.major_version) as usize;
        let mut tag = Tag::default();
        let mut pos: usize = 0;
        let ghost whole = frames_from(data@, 0, end as int, *header);
        let ghost mut done: Seq<(Seq<char>, SubValue)> = Seq::empty();
        while end >= header_len && pos <= end - header_len
            invariant_except_break
                whole == prefixed(done, frames_from(data@, pos as int, end as int, *header)),
            invariant
                end == frames_end(data@, *header),
                header_len == frame_header_len(header.major_version),
                whole == frames_from(data@, 0, end as int, *header),
                tag@ == collected(done),
            ensures
                whole == Ok::<Seq<(Seq<char>, SubValue)>, Error>(done),
                tag@ == collected(done),
            decreases data@.len() - pos,
        {
            if data[pos] == 0 {
                if header.footer {
                    return Err(Error::Malformed);
                }
                break ;
            }
            let frame = match Frame::from_buffer(&data[pos..data.len()], header) {
                Ok(Some(frame)) => frame,
                Ok(None) => {
                    break ;
                },
                Err(e) => {
                    return Err(e);
                },
            };
            let ghost next = pos + frame.size + header_len;
            let ghost rest = frames_from(data@, next, end as int, *header);
            let size = frame.size;
            let ghost pair = (frame.frame_id@, stored_value(frame@));
            proof {
                assert(done.push(pair).drop_last() =~= done);
                if let Ok(pairs) = rest {
                    assert(done + (seq![pair] + pairs) =~= done.push(pair) + pairs);
                }
                done = done.push(pair);
            }
            tag.insert_frame(frame);
            if size > end - pos - header_len {
                break ;
            }
            pos = pos + size + header_len;
        }
        Ok(tag)
    }

    /// Reads the fields of an ID3v2 tag from the data behind its header.
    pub fn from_buffer(buf: &[u8], header: &TagHeader) -> (r: Result<Tag, Error>)
        ensures
            tag_view(r) == tag_frames(buf@, *header),
    {
        if header.unsynch && header.major_version <= 3 {
            let plain = decode_slice(buf);
            Tag::read_frames(plain.as_slice(), header)
        } else {
            Tag::read_frames(buf, header)
        }
    }

    /// Reads the ID3v2 tag that starts at `offset` in `data`, the bytes of a
    /// file.
    pub fn id3v2_from_file(data: &[u8], offset: u64) -> (r: Result<Tag, Error>)
        ensures
            tag_view(r) == id3v2_tag(data@, offset as int),
    {
        if offset > data.len() as u64 || data.len() - (offset as usize) < 10 {
            return Err(Error::Truncated);
        }
        let start = offset as usize;
        let header = match parse_tag_header(&data[start..start + 10]) {
            Ok(header) => header,
            Err(e) => {
                return Err(e);
            },
        };
        if header.size == 0 {
            return Err(Error::Malformed);
        }
        let rest = data.len() - start - 10;
        if header.size > rest as u64 {
            return Err(Error::Truncated);
        }
        let size = header.size as usize;
        Tag::from_buffer(&data[start + 10..start + 10 + size], &header)
    }

    /// Reads the ID3v1 tag that starts at `offset` in `data`, the bytes of a
    /// file.
    pub fn id3v1_from_file(data: &[u8], offset: u64) -> (r: Result<Tag, Error>)
        ensures
            tag_view(r) == id3v1_tag(data@, offset as int),
    {
        if offset > data.len() as u64 || data.len() - (offset as usize) < 128 {
            return Err(Error::Truncated);
        }
        let start = offset as usize;
        let block = &data[start..start + 128];
        let mut frame_map: Dictionary<SubClass> = Dictionary::new();
        frame_map.insert(
            String::from_str("TIT2"),
            SubClass::Text(from_ascii(&block[3..33]), StringType::UTF8),
        );
        frame_map.insert(
            String::from_str("TPE1"),
            SubClass::Text(from_ascii(&block[33..63]), StringType::UTF8),
        );
        frame_map.insert(
            String::from_str("TALB"),
            SubClass::Text(from_ascii(&block[63..93]), StringType::UTF8),
        );
        if block[125] == 0 && block[126] != 0 {
            frame_map.insert(
                String::from_str("COMM"),
                SubClass::Text(from_ascii(&block[97..125]), StringType::UTF8),
            );
            frame_map.insert(String::from_str("TRCK"), SubClass::Uint(block[126] as u64));
        } else {
            frame_map.insert(
                String::from_str("COMM"),
                SubClass::Text(from_ascii(&block[97..127]), StringType::UTF8),
            );
        }
        Ok(Tag { frame_map })
    }

    /// Merges the fields of `other` into this tag.
    fn absorb(&mut self, other: &Tag)
        ensures
            final(self)@ == merged(old(self)@, other@),
    {
        let ghost first = self@;
        let ghost pairs = other.frame_map.pairs();
        let n = other.frame_map.len();
        let mut i: usize = 0;
        while i < n
            invariant
                i <= n,
                n == pairs.len(),
                pairs == other.frame_map.pairs(),
                distinct_keys(pairs),
                self@ == merged(first, as_map(pairs.take(i as int))),
            decreases n - i,
        {
            let (key, value) = other.frame_map.entry(i);
            proof {
                lemma_as_map_step(pairs, i as int);
            }
            let replace = match self.frame_map.get(key.as_str()) {
                None => true,
                Some(SubClass::Text(_, StringType::UTF16)) => true,
                Some(_) => false,
            };
            if replace {
                self.frame_map.insert(key.clone(), value.clone());
            }
            i += 1;
        }
        assert(pairs.take(n as int) =~= pairs);
    }

    /// Makes one tag of several. The tags come in the order of their rank,
    /// the highest first: a field is taken from the first tag that has it,
    /// and from a later one only in place of text that is unreliable.
    pub fn unify(tags: Vec<Rc<Self>>) -> (tag: Self)
        ensures
            tag@ == unified(tag_views(tags@)),
    {
        let mut ret_tag = Self::default();
        let mut i: usize = 0;
        while i < tags.len()
            invariant
                i <= tags@.len(),
                ret_tag@ == unified(tag_views(tags@).take(i as int)),
            decreases tags@.len() - i,
        {
            ret_tag.absorb(&tags[i]);
            assert(tag_views(tags@).take(i + 1).drop_last() =~= tag_views(tags@).take(i as int));
            i += 1;
        }
        assert(tag_views(tags@).take(i as int) =~= tag_views(tags@));
        ret_tag
    }

    /// The title: the text of the frame `TIT2`.
    pub fn title(&self) -> (r: Option<String>)
        ensures
            text_view(r) == text_at(self@, "TIT2"@),
    {
        match self.frame_map.get("TIT2") {
            Some(SubClass::Text(s, _)) => Some(s.clone()),
            _ => None,
        }
    }

    /// The artist: the text of the frame `TPE1`.
    pub fn artist(&self) -> (r: Option<String>)
        ensures
            text_view(r) == text_at(self@, "TPE1"@),
    {
        match self.frame_map.get("TPE1") {
            Some(SubClass::Text(s, _)) => Some(s.clone()),
            _ => None,
        }
    }

    /// The album: the text of the frame `TALB`.
    pub fn album(&self) -> (r: Option<String>)
        ensures
            text_view(r) == text_at(self@, "TALB"@),
    {
        match self.frame_map.get("TALB") {
            Some(SubClass::Text(s, _)) => Some(s.clone()),
            _ => None,
        }
    }

    /// The year: the number of the frame `TDRC`.
    pub fn year(&self) -> (r: Option<u64>)
        ensures
            r == uint_at(self@, "TDRC"@),
    {
        match self.frame_map.get("TDRC") {
            Some(SubClass::Uint(n)) => Some(*n),
            _ => None,
        }
    }

    /// The comment: the text of the frame `COMM`.
    pub fn comment(&self) -> (r: Option<String>)
        ensures
            text_view(r) == text_at(self@, "COMM"@),
    {
        match self.frame_map.get("COMM") {
            Some(SubClass::Text(s, _)) => Some(s.clone()),
            _ => None,
        }
    }

    /// The track number: the number of the frame `TRCK`, cut to 32 bits.
    pub fn track(&self) -> (r: Option<u32>)
        ensures
            r == (match uint_at(self@, "TRCK"@) {
                Some(n) => Some((n % 0x1_0000_0000) as u32),
                None => None,
            }),
    {
        match self.frame_map.get("TRCK") {
            Some(SubClass::Uint(n)) => Some((*n % 0x1_0000_0000) as u32),
            _ => None,
        }
    }

    /// The genre: the text of the frame `TCON`.
    pub fn genre(&self) -> (r: Option<String>)
        ensures
            text_view(r) == text_at(self@, "TCON"@),
    {
        match self.frame_map.get("TCON") {
            Some(SubClass::Text(s, _)) => Some(s.clone()),
            _ => None,
        }
    }
}

} // verus!
