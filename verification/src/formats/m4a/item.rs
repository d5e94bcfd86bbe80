//! The items of the iTunes metadata list `ilst`: how their values are laid
//! out, and what they decode to.

use vstd::prelude::*;
use vstd::string::*;
use vstd::slice::slice_to_vec;
use vstd::utf8::{decode_utf8, valid_utf8};
use crate::formats::bytes::{be16, be32, read_u16, read_u32};
use crate::formats::error::{viewed, Error};
use crate::formats::m4a::atom::{payload, payload_of, remaining, Atom, AtomModel};
use crate::formats::meta::{genre, genre_name, TagData, TagValue, GENRE_COUNT, GENRE_LIST};
use crate::formats::text::{latin1, latin1_string, str_eq, utf8_string};

verus! {

/// The name that the sub-atom at place `index` of an item has to have:
/// `data`, but for the first two sub-atoms of a free-form item, which are
/// called `mean` and `name`.
pub open spec fn expected_name(free_form: bool, index: int) -> Seq<char> {
    if free_form && index == 0 {
        "mean"@
    } else if free_form && index == 1 {
        "name"@
    } else {
        "data"@
    }
}

/// The values in the payload of an item of the list, from `offset` on, as
/// pairs of flags and bytes.
///
/// The payload is a row of sub-atoms: a length in four bytes, a name in four,
/// the flags in four, four bytes that are not read, and the value. `index`
/// counts the sub-atoms. A sub-atom is malformed where its header does not
/// fit, where its length is under twelve, and where its name is not the
/// expected one. Only the values whose flags are `expected_flags` are
/// wanted, or all of them where that is `u32::MAX`; a wanted value is
/// malformed where its sub-atom is shorter than sixteen bytes or reaches past
/// the payload.
pub open spec fn data_items(
    buf: Seq<u8>,
    offset: int,
    index: int,
    expected_flags: u32,
    free_form: bool,
) -> Result<Seq<(u32, Seq<u8>)>, Error>
    decreases remaining(buf, offset),
{
    if offset < 0 || offset >= buf.len() {
        Ok(Seq::empty())
    } else if offset + 12 > buf.len() {
        Err(Error::Malformed)
    } else {
        let length = be32(buf.subrange(offset, offset + 4));
        let name = latin1(buf.subrange(offset + 4, offset + 8));
        let flags = be32(buf.subrange(offset + 8, offset + 12)) as u32;
        let wanted = expected_flags == u32::MAX || flags == expected_flags;
        if length < 12 {
            Err(Error::Malformed)
        } else if name != expected_name(free_form, index) {
            Err(Error::Malformed)
        } else if wanted && (length < 16 || offset + length > buf.len()) {
            Err(Error::Malformed)
        } else {
            match data_items(buf, offset + length, index + 1, expected_flags, free_form) {
                Err(e) => Err(e),
                Ok(rest) => Ok(
                    if wanted {
                        seq![(flags, buf.subrange(offset + 16, offset + length))] + rest
                    } else {
                        rest
                    },
                ),
            }
        }
    }
}

/// A list of values with more values put in front.
pub open spec fn prefixed(
    done: Seq<(u32, Seq<u8>)>,
    rest: Result<Seq<(u32, Seq<u8>)>, Error>,
) -> Result<Seq<(u32, Seq<u8>)>, Error> {
    match rest {
        Err(e) => Err(e),
        Ok(items) => Ok(done + items),
    }
}

/// Reads the values out of the payload of an item of the list.
pub fn parse_data(buf: &[u8], expected_flags: u32, free_form: bool) -> (r: Result<
    Vec<(u32, Vec<u8>)>,
    Error,
>)
    ensures
        match r {
            Ok(items) => data_items(buf@, 0, 0, expected_flags, free_form) == Ok::<
                Seq<(u32, Seq<u8>)>,
                Error,
            >(items.deep_view()),
            Err(e) => data_items(buf@, 0, 0, expected_flags, free_form) == Err::<
                Seq<(u32, Seq<u8>)>,
                Error,
            >(e),
        },
{
    let mut offset: usize = 0;
    let mut index: usize = 0;
    let mut items: Vec<(u32, Vec<u8>)> = Vec::new();
    let ghost whole = data_items(buf@, 0, 0, expected_flags, free_form);
    while offset < buf.len()
        invariant
            offset <= buf@.len(),
            index <= offset,
            whole == data_items(buf@, 0, 0, expected_flags, free_form),
            whole == prefixed(
                items.deep_view(),
                data_items(buf@, offset as int, index as int, expected_flags, free_form),
            ),
        decreases buf@.len() - offset,
    {
        if buf.len() - offset < 12 {
            return Err(Error::Malformed);
        }
        let length = read_u32(&buf[offset..offset + 4]);
        if length < 12 {
            return Err(Error::Malformed);
        }
        let name = latin1_string(&buf[offset + 4..offset + 8]);
        let flags = read_u32(&buf[offset + 8..offset + 12]);
        let expected = if free_form && index == 0 {
            "mean"
        } else if free_form && index == 1 {
            "name"
        } else {
            "data"
        };
        if !str_eq(name.as_str(), expected) {
            return Err(Error::Malformed);
        }
        let fits = length as u64 <= (buf.len() - offset) as u64;
        let ghost done = items.deep_view();
        let ghost rest = data_items(
            buf@,
            offset + length,
            index + 1,
            expected_flags,
            free_form,
        );
        if expected_flags == u32::MAX || flags == expected_flags {
            if length < 16 || !fits {
                return Err(Error::Malformed);
            }
            let end = offset + length as usize;
            let value = slice_to_vec(&buf[offset + 16..end]);
            let ghost item = (flags, value@);
            assert(value.deep_view() =~= value@);
            items.push((flags, value));
            proof {
                assert(items.deep_view() =~= done.push(item));
                if let Ok(more) = rest {
                    assert(done + (seq![item] + more) =~= done.push(item) + more);
                }
            }
        }
        if fits {
            offset = offset + length as usize;
        } else {
            offset = buf.len();
        }
        index = index + 1;
    }
    Ok(items)
}

/// All the values in the payload of an item.
pub open spec fn all_items(payload: Seq<u8>) -> Result<Seq<(u32, Seq<u8>)>, Error> {
    data_items(payload, 0, 0, u32::MAX, false)
}

/// What an item decodes to, where `decode` says what its values decode to.
pub open spec fn decoded(
    items: Result<Seq<(u32, Seq<u8>)>, Error>,
    decode: spec_fn(Seq<(u32, Seq<u8>)>) -> Result<TagValue, Error>,
) -> Result<TagValue, Error> {
    match items {
        Err(e) => Err(e),
        Ok(items) => decode(items),
    }
}

/// A number: the first two bytes of the first value, big-endian. An item
/// without values is empty.
pub open spec fn int_value(items: Seq<(u32, Seq<u8>)>) -> Result<TagValue, Error> {
    if items.len() == 0 {
        Ok(TagValue::Empty)
    } else if items[0].1.len() < 2 {
        Err(Error::Malformed)
    } else {
        Ok(TagValue::Uint(be16(items[0].1) as u64))
    }
}

/// A small number: the first byte of the first value.
pub open spec fn byte_value(items: Seq<(u32, Seq<u8>)>) -> Result<TagValue, Error> {
    if items.len() == 0 {
        Ok(TagValue::Empty)
    } else if items[0].1.len() < 1 {
        Err(Error::Malformed)
    } else {
        Ok(TagValue::Uint(items[0].1[0] as u64))
    }
}

/// A pair of numbers, such as a track and the number of tracks: bytes 2 to
/// 3 and bytes 4 to 5 of the first value, each big-endian.
pub open spec fn pair_value(items: Seq<(u32, Seq<u8>)>) -> Result<TagValue, Error> {
    if items.len() == 0 {
        Ok(TagValue::Empty)
    } else if items[0].1.len() < 6 {
        Err(Error::Malformed)
    } else {
        Ok(TagValue::IntPair(be16(items[0].1.skip(2)) as u32, be16(items[0].1.skip(4)) as u32))
    }
}

/// A flag: set where the first value has a first byte and it is not zero.
pub open spec fn flag_value(items: Seq<(u32, Seq<u8>)>) -> Result<TagValue, Error> {
    if items.len() == 0 {
        Ok(TagValue::Empty)
    } else {
        Ok(TagValue::Bool(items[0].1.len() > 0 && items[0].1[0] != 0))
    }
}

/// A genre: the name whose number the first two bytes of the first value
/// spell. A number without a name is malformed.
pub open spec fn genre_value(items: Seq<(u32, Seq<u8>)>) -> Result<TagValue, Error> {
    if items.len() == 0 {
        Ok(TagValue::Empty)
    } else if items[0].1.len() < 2 {
        Err(Error::Malformed)
    } else {
        match genre_name(be16(items[0].1)) {
            Some(name) => Ok(TagValue::Str(name)),
            None => Err(Error::Malformed),
        }
    }
}

/// A genre number stands for a name exactly where it is at least 1 and at
/// most the length of the table; the number 1 stands for the table's first
/// name. Any other number is malformed.
pub proof fn lemma_genre_value(items: Seq<(u32, Seq<u8>)>)
    requires
        items.len() > 0,
        items[0].1.len() >= 2,
    ensures
        1 <= be16(items[0].1) <= GENRE_COUNT ==> genre_value(items) == Ok::<TagValue, Error>(
            TagValue::Str(GENRE_LIST[be16(items[0].1) - 1]@),
        ),
        be16(items[0].1) == 1 ==> genre_value(items) == Ok::<TagValue, Error>(
            TagValue::Str(GENRE_LIST[0]@),
        ),
        be16(items[0].1) == 0 || be16(items[0].1) > GENRE_COUNT ==> genre_value(items) == Err::<
            TagValue,
            Error,
        >(Error::Malformed),
{
}

/// The texts of the values that are well-formed UTF-8, in their order.
pub open spec fn utf8_texts(items: Seq<(u32, Seq<u8>)>) -> Seq<Seq<char>>
    decreases items.len(),
{
    if items.len() == 0 {
        Seq::empty()
    } else if valid_utf8(items.last().1) {
        utf8_texts(items.drop_last()).push(decode_utf8(items.last().1))
    } else {
        utf8_texts(items.drop_last())
    }
}

/// The Latin-1 readings of the values, in their order.
pub open spec fn latin1_texts(items: Seq<(u32, Seq<u8>)>) -> Seq<Seq<char>> {
    Seq::new(items.len(), |i: int| latin1(items[i].1))
}

/// The parts in one text, with a comma and a space between each two.
pub open spec fn joined(parts: Seq<Seq<char>>) -> Seq<char>
    decreases parts.len(),
{
    if parts.len() == 0 {
        Seq::empty()
    } else if parts.len() == 1 {
        parts[0]
    } else {
        joined(parts.drop_last()) + ", "@ + parts.last()
    }
}

/// Text: the values that are well-formed UTF-8, joined.
pub open spec fn text_value(items: Seq<(u32, Seq<u8>)>) -> Result<TagValue, Error> {
    if items.len() == 0 {
        Ok(TagValue::Empty)
    } else {
        Ok(TagValue::Str(joined(utf8_texts(items))))
    }
}

/// The key and the value of a free-form item.
///
/// Its first two values name it: the key is `----:`, the first value, a
/// colon and the second value. The further values are its texts, joined:
/// read as UTF-8 where the flags of the first of them are zero, leaving out
/// what is not well-formed, and as Latin-1 otherwise. An item of fewer than
/// three values is empty. A name that is not well-formed UTF-8 is malformed.
pub open spec fn free_form_value(items: Seq<(u32, Seq<u8>)>) -> Result<
    (Seq<char>, TagValue),
    Error,
> {
    if items.len() <= 2 {
        Ok((Seq::empty(), TagValue::Empty))
    } else if !valid_utf8(items[0].1) || !valid_utf8(items[1].1) {
        Err(Error::Malformed)
    } else {
        Ok(
            (
                "----:"@ + decode_utf8(items[0].1) + ":"@ + decode_utf8(items[1].1),
                TagValue::Str(
                    joined(
                        if items[2].0 == 0 {
                            utf8_texts(items.skip(2))
                        } else {
                            latin1_texts(items.skip(2))
                        },
                    ),
                ),
            ),
        )
    }
}

/// The values of a list, each with the view of its bytes.
proof fn lemma_items_view(items: &Vec<(u32, Vec<u8>)>)
    ensures
        items.deep_view().len() == items@.len(),
        forall|i: int|
            0 <= i < items@.len() ==> (#[trigger] items.deep_view()[i]) == (
                items@[i].0,
                items@[i].1@,
            ),
{
}

/// Joins texts with a comma and a space between each two.
pub fn join(parts: &Vec<String>) -> (text: String)
    ensures
        text@ == joined(parts.deep_view()),
{
    let mut text = String::new();
    let mut i: usize = 0;
    while i < parts.len()
        invariant
            i <= parts@.len(),
            parts.deep_view().len() == parts@.len(),
            text@ == joined(parts.deep_view().take(i as int)),
        decreases parts@.len() - i,
    {
        let ghost head = parts.deep_view().take(i + 1);
        assert(head.drop_last() =~= parts.deep_view().take(i as int));
        if i > 0 {
            text.append(", ");
        }
        text.append(parts[i].as_str());
        i += 1;
    }
    assert(parts.deep_view().take(i as int) =~= parts.deep_view());
    text
}

/// Decodes the values that are well-formed UTF-8, from the one at `from` on.
fn utf8_parts(items: &Vec<(u32, Vec<u8>)>, from: usize) -> (parts: Vec<String>)
    requires
        from <= items@.len(),
    ensures
        parts.deep_view() == utf8_texts(items.deep_view().skip(from as int)),
{
    let mut parts: Vec<String> = Vec::new();
    let mut i: usize = from;
    let ghost all = items.deep_view().skip(from as int);
    while i < items.len()
        invariant
            from <= i <= items@.len(),
            all == items.deep_view().skip(from as int),
            items.deep_view().len() == items@.len(),
            forall|k: int|
                0 <= k < items@.len() ==> (#[trigger] items.deep_view()[k]) == (
                    items@[k].0,
                    items@[k].1@,
                ),
            parts.deep_view() == utf8_texts(all.take(i - from)),
        decreases items@.len() - i,
    {
        let ghost head = all.take(i - from + 1);
        assert(head.drop_last() =~= all.take(i - from));
        if let Some(text) = utf8_string(items[i].1.as_slice()) {
            parts.push(text);
        }
        i += 1;
    }
    assert(all.take(i - from) =~= all);
    parts
}

/// Reads the values as Latin-1, from the one at `from` on.
fn latin1_parts(items: &Vec<(u32, Vec<u8>)>, from: usize) -> (parts: Vec<String>)
    requires
        from <= items@.len(),
    ensures
        parts.deep_view() == latin1_texts(items.deep_view().skip(from as int)),
{
    let mut parts: Vec<String> = Vec::new();
    let mut i: usize = from;
    while i < items.len()
        invariant
            from <= i <= items@.len(),
            items.deep_view().len() == items@.len(),
            forall|k: int|
                0 <= k < items@.len() ==> (#[trigger] items.deep_view()[k]) == (
                    items@[k].0,
                    items@[k].1@,
                ),
            parts@.len() == i - from,
            forall|k: int|
                0 <= k < i - from ==> (#[trigger] parts@[k])@ == latin1(items@[from + k].1@),
        decreases items@.len() - i,
    {
        parts.push(latin1_string(items[i].1.as_slice()));
        i += 1;
    }
    parts
}

/// Decodes a number of sixteen bits.
pub fn parse_int(payload: &[u8]) -> (r: Result<TagData, Error>)
    ensures
        viewed(r) == decoded(all_items(payload@), |items| int_value(items)),
{
    let items = match parse_data(payload, u32::MAX, false) {
        Ok(items) => items,
        Err(e) => {
            return Err(e);
        },
    };
    if items.len() == 0 {
        Ok(TagData::Empty)
    } else if items[0].1.len() < 2 {
        Err(Error::Malformed)
    } else {
        Ok(TagData::Uint(read_u16(items[0].1.as_slice()) as u64))
    }
}

/// Decodes a number of eight bits.
pub fn parse_byte(payload: &[u8]) -> (r: Result<TagData, Error>)
    ensures
        viewed(r) == decoded(all_items(payload@), |items| byte_value(items)),
{
    let items = match parse_data(payload, u32::MAX, false) {
        Ok(items) => items,
        Err(e) => {
            return Err(e);
        },
    };
    if items.len() == 0 {
        Ok(TagData::Empty)
    } else if items[0].1.len() < 1 {
        Err(Error::Malformed)
    } else {
        Ok(TagData::Uint(items[0].1[0] as u64))
    }
}

/// Decodes a pair of numbers.
pub fn parse_int_pair(payload: &[u8]) -> (r: Result<TagData, Error>)
    ensures
        viewed(r) == decoded(all_items(payload@), |items| pair_value(items)),
{
    let items = match parse_data(payload, u32::MAX, false) {
        Ok(items) => items,
        Err(e) => {
            return Err(e);
        },
    };
    if items.len() == 0 {
        Ok(TagData::Empty)
    } else if items[0].1.len() < 6 {
        Err(Error::Malformed)
    } else {
        let value = items[0].1.as_slice();
        let first = read_u16(&value[2..4]);
        let second = read_u16(&value[4..6]);
        Ok(TagData::IntPair(first as u32, second as u32))
    }
}

/// Decodes text. Only the values whose flags say text are read.
pub fn parse_string(payload: &[u8]) -> (r: Result<TagData, Error>)
    ensures
        viewed(r) == decoded(data_items(payload@, 0, 0, 1, false), |items| text_value(items)),
{
    let items = match parse_data(payload, 1, false) {
        Ok(items) => items,
        Err(e) => {
            return Err(e);
        },
    };
    if items.len() == 0 {
        Ok(TagData::Empty)
    } else {
        let parts = utf8_parts(&items, 0);
        assert(items.deep_view().skip(0) =~= items.deep_view());
        Ok(TagData::Str(join(&parts)))
    }
}

/// Cover art is not decoded.
pub fn parse_cover() -> (r: Result<TagData, Error>)
    ensures
        viewed(r) == Ok::<TagValue, Error>(TagValue::Unimplemented),
{
    Ok(TagData::Unimplemented)
}

/// Decodes a genre: a number that stands for a name.
pub fn parse_genre(payload: &[u8]) -> (r: Result<TagData, Error>)
    ensures
        viewed(r) == decoded(all_items(payload@), |items| genre_value(items)),
{
    let items = match parse_data(payload, u32::MAX, false) {
        Ok(items) => items,
        Err(e) => {
            return Err(e);
        },
    };
    if items.len() == 0 {
        Ok(TagData::Empty)
    } else if items[0].1.len() < 2 {
        Err(Error::Malformed)
    } else {
        let number = read_u16(items[0].1.as_slice()) as usize;
        match genre(number) {
            Some(name) => Ok(TagData::Str(name.to_owned())),
            None => Err(Error::Malformed),
        }
    }
}

/// What the payload of a free-form item decodes to.
pub open spec fn decoded_free_form(payload: Seq<u8>) -> Result<(Seq<char>, TagValue), Error> {
    match data_items(payload, 0, 0, u32::MAX, true) {
        Err(e) => Err(e),
        Ok(items) => free_form_value(items),
    }
}

/// Decodes a free-form item to its key and its value.
pub fn parse_free_form(payload: &[u8]) -> (r: Result<(String, TagData), Error>)
    ensures
        match r {
            Ok((key, value)) => decoded_free_form(payload@) == Ok::<(Seq<char>, TagValue), Error>(
                (key@, value@),
            ),
            Err(e) => decoded_free_form(payload@) == Err::<(Seq<char>, TagValue), Error>(e),
        },
{
    let items = match parse_data(payload, u32::MAX, true) {
        Ok(items) => items,
        Err(e) => {
            return Err(e);
        },
    };
    proof {
        lemma_items_view(&items);
    }
    if items.len() > 2 {
        let mean = match utf8_string(items[0].1.as_slice()) {
            Some(mean) => mean,
            None => {
                return Err(Error::Malformed);
            },
        };
        let name = match utf8_string(items[1].1.as_slice()) {
            Some(name) => name,
            None => {
                return Err(Error::Malformed);
            },
        };
        let mut key = String::from_str("----:");
        key.append(mean.as_str());
        key.append(":");
        key.append(name.as_str());
        let parts = if items[2].0 == 0 {
            utf8_parts(&items, 2)
        } else {
            latin1_parts(&items, 2)
        };
        Ok((key, TagData::Str(join(&parts))))
    } else {
        Ok((String::new(), TagData::Empty))
    }
}

/// Decodes a flag.
pub fn parse_bool(payload: &[u8]) -> (r: Result<TagData, Error>)
    ensures
        viewed(r) == decoded(all_items(payload@), |items| flag_value(items)),
{
    let items = match parse_data(payload, u32::MAX, false) {
        Ok(items) => items,
        Err(e) => {
            return Err(e);
        },
    };
    if items.len() == 0 {
        Ok(TagData::Empty)
    } else {
        Ok(TagData::Bool(items[0].1.len() > 0 && items[0].1[0] != 0))
    }
}

/// Whether items of this name hold a pair of numbers.
pub open spec fn is_pair_name(name: Seq<char>) -> bool {
    name == "trkn"@ || name == "disk"@
}

/// Whether items of this name hold a flag.
pub open spec fn is_flag_name(name: Seq<char>) -> bool {
    name == "cpil"@ || name == "pgap"@ || name == "pcst"@ || name == "hdvd"@
}

/// Whether items of this name hold a number of sixteen bits.
pub open spec fn is_int_name(name: Seq<char>) -> bool {
    name == "tmpo"@ || name == "tvsn"@ || name == "tves"@ || name == "cnID"@ || name == "sfID"@
        || name == "atID"@ || name == "geID"@ || name == "plID"@
}

/// Whether items of this name hold a number of eight bits.
pub open spec fn is_byte_name(name: Seq<char>) -> bool {
    name == "stik"@ || name == "rtng"@ || name == "akID"@
}

/// What an item of the given name decodes to. Items of a name that is not
/// known hold text.
pub open spec fn item_value(name: Seq<char>, payload: Seq<u8>) -> Result<TagValue, Error> {
    if is_pair_name(name) {
        decoded(all_items(payload), |items| pair_value(items))
    } else if is_flag_name(name) {
        decoded(all_items(payload), |items| flag_value(items))
    } else if is_int_name(name) {
        decoded(all_items(payload), |items| int_value(items))
    } else if is_byte_name(name) {
        decoded(all_items(payload), |items| byte_value(items))
    } else if name == "gnre"@ {
        decoded(all_items(payload), |items| genre_value(items))
    } else {
        decoded(data_items(payload, 0, 0, 1, false), |items| text_value(items))
    }
}

/// The field that one item of the list gives: its key and its value, or
/// nothing for a free-form item that is empty. Cover art is recorded as not
/// decoded, unread.
pub open spec fn item_field(data: Seq<u8>, atom: AtomModel) -> Result<
    Option<(Seq<char>, TagValue)>,
    Error,
> {
    if atom.name == "covr"@ {
        Ok(Some((atom.name, TagValue::Unimplemented)))
    } else {
        match payload_of(data, atom) {
            Err(e) => Err(e),
            Ok(payload) => if atom.name == "----"@ {
                match decoded_free_form(payload) {
                    Err(e) => Err(e),
                    Ok((key, value)) => if value is Empty {
                        Ok(None)
                    } else {
                        Ok(Some((key, value)))
                    },
                }
            } else {
                match item_value(atom.name, payload) {
                    Err(e) => Err(e),
                    Ok(value) => Ok(Some((atom.name, value))),
                }
            },
        }
    }
}

/// Decodes one item of the metadata list.
pub fn read_item(data: &[u8], atom: &Atom) -> (r: Result<Option<(String, TagData)>, Error>)
    ensures
        match r {
            Ok(Some((key, value))) => item_field(data@, atom@) == Ok::<
                Option<(Seq<char>, TagValue)>,
                Error,
            >(Some((key@, value@))),
            Ok(None) => item_field(data@, atom@) == Ok::<Option<(Seq<char>, TagValue)>, Error>(
                None,
            ),
            Err(e) => item_field(data@, atom@) == Err::<Option<(Seq<char>, TagValue)>, Error>(e),
        },
{
    let name = atom.name.as_str();
    if str_eq(name, "covr") {
        return match parse_cover() {
            Ok(value) => Ok(Some((atom.name.clone(), value))),
            Err(e) => Err(e),
        };
    }
    let bytes = match payload(data, atom) {
        Ok(bytes) => bytes,
        Err(e) => {
            return Err(e);
        },
    };
    if str_eq(name, "----") {
        return match parse_free_form(bytes) {
            Ok((_, TagData::Empty)) => Ok(None),
            Ok((key, value)) => Ok(Some((key, value))),
            Err(e) => Err(e),
        };
    }
    let value = if str_eq(name, "trkn") || str_eq(name, "disk") {
        parse_int_pair(bytes)
    } else if str_eq(name, "cpil") || str_eq(name, "pgap") || str_eq(name, "pcst") || str_eq(
        name,
        "hdvd",
    ) {
        parse_bool(bytes)
    } else if str_eq(name, "tmpo") || str_eq(name, "tvsn") || str_eq(name, "tves") || str_eq(
        name,
        "cnID",
    ) || str_eq(name, "sfID") || str_eq(name, "atID") || str_eq(name, "geID") || str_eq(
        name,
        "plID",
    ) {
        parse_int(bytes)
    } else if str_eq(name, "stik") || str_eq(name, "rtng") || str_eq(name, "akID") {
        parse_byte(bytes)
    } else if str_eq(name, "gnre") {
        parse_genre(bytes)
    } else {
        parse_string(bytes)
    };
    match value {
        Ok(value) => Ok(Some((atom.name.clone(), value))),
        Err(e) => Err(e),
    }
}

/// The key of a free-form item that is not empty opens with a hyphen.
pub proof fn lemma_free_form_key(payload: Seq<u8>)
    ensures
        decoded_free_form(payload) matches Ok((key, value)) ==> value is Empty || (key.len() > 0
            && key[0] == '-'),
{
    reveal_strlit("----:");
    if let Ok(items) = data_items(payload, 0, 0, u32::MAX, true) {
        if let Ok((key, value)) = free_form_value(items) {
            if items.len() > 2 {
                let head = "----:"@;
                assert(key == head + decode_utf8(items[0].1) + ":"@ + decode_utf8(items[1].1));
                assert(key[0] == head[0]);
            }
        }
    }
}

/// Whether the payload of an item is one `data` sub-atom that holds `text`
/// under the flags of text: its length, the name `data`, the flags 1, four
/// bytes that are not read, and the text.
pub open spec fn is_text_payload(payload: Seq<u8>, text: Seq<u8>) -> bool {
    &&& payload.len() == 16 + text.len()
    &&& be32(payload.subrange(0, 4)) == payload.len()
    &&& latin1(payload.subrange(4, 8)) == "data"@
    &&& be32(payload.subrange(8, 12)) == 1
    &&& payload.subrange(16, payload.len() as int) == text
}

/// The title item is none of the items that are read otherwise than as text.
pub proof fn lemma_title_is_text()
    ensures
        "©nam"@ != "covr"@,
        "©nam"@ != "----"@,
        "©nam"@ != "gnre"@,
        !is_pair_name("©nam"@),
        !is_flag_name("©nam"@),
        !is_int_name("©nam"@),
        !is_byte_name("©nam"@),
        "©nam"@.len() == 4,
        "©nam"@[0] != '-',
{
    reveal_strlit("©nam");
    reveal_strlit("covr");
    reveal_strlit("----");
    reveal_strlit("gnre");
    reveal_strlit("trkn");
    reveal_strlit("disk");
    reveal_strlit("cpil");
    reveal_strlit("pgap");
    reveal_strlit("pcst");
    reveal_strlit("hdvd");
    reveal_strlit("tmpo");
    reveal_strlit("tvsn");
    reveal_strlit("tves");
    reveal_strlit("cnID");
    reveal_strlit("sfID");
    reveal_strlit("atID");
    reveal_strlit("geID");
    reveal_strlit("plID");
    reveal_strlit("stik");
    reveal_strlit("rtng");
    reveal_strlit("akID");
    let first = "©nam"@[0];
    assert(first != "covr"@[0] && first != "----"@[0] && first != "gnre"@[0]);
    assert(first != "trkn"@[0] && first != "disk"@[0]);
    assert(first != "cpil"@[0] && first != "pgap"@[0] && first != "pcst"@[0] && first
        != "hdvd"@[0]);
    assert(first != "tmpo"@[0] && first != "tvsn"@[0] && first != "tves"@[0] && first
        != "cnID"@[0] && first != "sfID"@[0] && first != "atID"@[0] && first != "geID"@[0]
        && first != "plID"@[0]);
    assert(first != "stik"@[0] && first != "rtng"@[0] && first != "akID"@[0]);
}

/// A title item whose payload is one text value of well-formed UTF-8 gives
/// the title field, with that text.
pub proof fn lemma_title_item(data: Seq<u8>, atom: AtomModel, text: Seq<u8>)
    requires
        atom.name == "©nam"@,
        payload_of(data, atom) matches Ok(payload) && is_text_payload(payload, text),
        valid_utf8(text),
    ensures
        item_field(data, atom) == Ok::<Option<(Seq<char>, TagValue)>, Error>(
            Some(("©nam"@, TagValue::Str(decode_utf8(text)))),
        ),
{
    lemma_title_is_text();
    let payload = payload_of(data, atom)->Ok_0;
    let items = seq![(1u32, text)];
    assert(data_items(payload, payload.len() as int, 1, 1, false) == Ok::<
        Seq<(u32, Seq<u8>)>,
        Error,
    >(Seq::empty()));
    assert(seq![(1u32, text)] + Seq::<(u32, Seq<u8>)>::empty() =~= items);
    assert(data_items(payload, 0, 0, 1, false) == Ok::<Seq<(u32, Seq<u8>)>, Error>(items));
    assert(items.drop_last() =~= Seq::<(u32, Seq<u8>)>::empty());
    assert(utf8_texts(items) =~= seq![decode_utf8(text)]) by {
        reveal_with_fuel(utf8_texts, 2);
    }
    assert(joined(seq![decode_utf8(text)]) == decode_utf8(text));
}

} // verus!
