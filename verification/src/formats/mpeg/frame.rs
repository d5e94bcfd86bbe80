//! ID3v2 frames: the frame header in its three layouts, the checks a frame
//! has to pass, and the decoding of text frames.

use vstd::prelude::*;
use vstd::string::*;
use vstd::slice::slice_to_vec;
use vstd::utf8::{decode_utf8, valid_utf8};
use vstd::std_specs::convert::FromSpecImpl;
use crate::formats::bytes::{be32, read_u32};
use crate::formats::error::{viewed, Error};
use crate::formats::mpeg::synch::{
    decode_slice,
    int_from_buf,
    is_synchsafe,
    lemma_seven_bit_value_bound,
    lemma_unsynchronized_len,
    size_value,
    unsynchronized,
};
use crate::formats::mpeg::tag::TagHeader;
use crate::formats::text::{str_eq, string_from_utf16, utf16_text, utf8_string};
use crate::formats::utils::{ascii_text, from_ascii};

verus! {

/// How the text of a frame is encoded, as its first byte says.
#[derive(Debug, Clone, Copy, PartialEq, Eq, Structural)]
pub enum StringType {
    Latin1,
    UTF16,
    UTF16be,
    UTF8,
    UTF16le,
    Invalid,
}

impl From<u8> for StringType {
    fn from(val: u8) -> (kind: Self) {
        match val {
            0 => StringType::Latin1,
            1 => StringType::UTF16,
            2 => StringType::UTF16be,
            3 => StringType::UTF8,
            4 => StringType::UTF16le,
            _ => StringType::Invalid,
        }
    }
}

impl FromSpecImpl<u8> for StringType {
    open spec fn obeys_from_spec() -> bool {
        true
    }

    open spec fn from_spec(val: u8) -> Self {
        encoding_of(val)
    }
}

/// The encoding that the first byte of a text field announces.
pub open spec fn encoding_of(b: u8) -> StringType {
    match b {
        0 => StringType::Latin1,
        1 => StringType::UTF16,
        2 => StringType::UTF16be,
        3 => StringType::UTF8,
        4 => StringType::UTF16le,
        _ => StringType::Invalid,
    }
}

/// What a frame holds once it is decoded.
#[derive(Debug, PartialEq, Eq)]
pub enum SubClass {
    Text(String, StringType),
    Uint(u64),
    Unknown,
}

/// A `SubClass` as a mathematical value.
pub enum SubValue {
    Text(Seq<char>, StringType),
    Uint(u64),
    Unknown,
}

impl View for SubClass {
    type V = SubValue;

    open spec fn view(&self) -> SubValue {
        match self {
            SubClass::Text(s, kind) => SubValue::Text(s@, *kind),
            SubClass::Uint(n) => SubValue::Uint(*n),
            SubClass::Unknown => SubValue::Unknown,
        }
    }
}

impl Clone for SubClass {
    fn clone(&self) -> (copy: Self)
        ensures
            copy@ == self@,
    {
        match self {
            SubClass::Text(s, kind) => SubClass::Text(s.clone(), *kind),
            SubClass::Uint(n) => SubClass::Uint(*n),
            SubClass::Unknown => SubClass::Unknown,
        }
    }
}

/// The header of one frame.
#[derive(Debug, PartialEq, Eq)]
pub struct Header {
    pub frame_id: String,
    pub size: u64,
    pub version: u8,
    pub data_length_indicator: bool,
    pub unsynch: bool,
    pub tag_alter_preservation: bool,
    pub file_alter_preservation: bool,
    pub read_only: bool,
    pub compression: bool,
    pub encryption: bool,
    pub grouping_ident: bool,
}

/// A `Header` as a mathematical value.
pub struct HeaderModel {
    pub frame_id: Seq<char>,
    pub size: u64,
    pub version: u8,
    pub data_length_indicator: bool,
    pub unsynch: bool,
    pub tag_alter_preservation: bool,
    pub file_alter_preservation: bool,
    pub read_only: bool,
    pub compression: bool,
    pub encryption: bool,
    pub grouping_ident: bool,
}

impl View for Header {
    type V = HeaderModel;

    open spec fn view(&self) -> HeaderModel {
        HeaderModel {
            frame_id: self.frame_id@,
            size: self.size,
            version: self.version,
            data_length_indicator: self.data_length_indicator,
            unsynch: self.unsynch,
            tag_alter_preservation: self.tag_alter_preservation,
            file_alter_preservation: self.file_alter_preservation,
            read_only: self.read_only,
            compression: self.compression,
            encryption: self.encryption,
            grouping_ident: self.grouping_ident,
        }
    }
}

/// The header of a frame of which nothing is known but the tag's version and
/// the text of its identifier: size zero and no flag set.
pub open spec fn blank_header(version: u8, frame_id: Seq<char>) -> HeaderModel {
    HeaderModel {
        frame_id,
        size: 0,
        version,
        data_length_indicator: false,
        unsynch: false,
        tag_alter_preservation: false,
        file_alter_preservation: false,
        read_only: false,
        compression: false,
        encryption: false,
        grouping_ident: false,
    }
}

/// The identifier under which a frame is decoded: three identifiers of
/// ID3v2.3 stand for their ID3v2.4 successors.
pub open spec fn renamed(id: Seq<char>) -> Seq<char> {
    if id == "TORY"@ {
        "TDOR"@
    } else if id == "TYER"@ {
        "TDRC"@
    } else if id == "IPLS"@ {
        "TIPL"@
    } else {
        id
    }
}

/// Whether a frame of this identifier has no counterpart in later versions
/// and is therefore kept undecoded.
pub open spec fn dropped(version: u8, id: Seq<char>) -> bool {
    if version == 2 {
        id == "CRM"@ || id == "EQU"@ || id == "LNK"@ || id == "RVA"@ || id == "TIM"@ || id
            == "TDA"@ || id == "TSI"@
    } else if version == 3 {
        id == "EQUA"@ || id == "RVAD"@ || id == "TIME"@ || id == "TRDA"@ || id == "TSIZ"@ || id
            == "TDAT"@
    } else {
        false
    }
}

impl Header {
    /// The header of a frame in a tag of the given version, before anything
    /// was read: empty identifier, size zero, no flag set.
    pub fn default(version: u8) -> (h: Self)
        ensures
            h@ == blank_header(version, Seq::empty()),
    {
        Self {
            frame_id: String::new(),
            size: 0,
            version: version,
            data_length_indicator: false,
            unsynch: false,
            tag_alter_preservation: false,
            file_alter_preservation: false,
            read_only: false,
            compression: false,
            encryption: false,
            grouping_ident: false,
        }
    }

    /// Brings the identifier up to date and says whether the frame can be
    /// decoded: `false` for the identifiers that `version` has and later
    /// versions dropped.
    pub fn update(&mut self, version: u8) -> (keep: bool)
        ensures
            final(self)@ == (HeaderModel { frame_id: renamed(old(self)@.frame_id), ..old(self)@ }),
            keep == !dropped(version, renamed(old(self)@.frame_id)),
    {
        if str_eq(self.frame_id.as_str(), "TORY") {
            self.frame_id = String::from_str("TDOR");
        } else if str_eq(self.frame_id.as_str(), "TYER") {
            self.frame_id = String::from_str("TDRC");
        } else if str_eq(self.frame_id.as_str(), "IPLS") {
            self.frame_id = String::from_str("TIPL");
        }
        let id = self.frame_id.as_str();
        if version == 2 {
            !(str_eq(id, "CRM") || str_eq(id, "EQU") || str_eq(id, "LNK") || str_eq(id, "RVA")
                || str_eq(id, "TIM") || str_eq(id, "TDA") || str_eq(id, "TSI"))
        } else if version == 3 {
            !(str_eq(id, "EQUA") || str_eq(id, "RVAD") || str_eq(id, "TIME") || str_eq(id, "TRDA")
                || str_eq(id, "TSIZ") || str_eq(id, "TDAT"))
        } else {
            true
        }
    }
}

/// The length of a frame header: six bytes before ID3v2.3, ten from then on.
pub open spec fn frame_header_len(version: u8) -> int {
    if version < 3 {
        6
    } else {
        10
    }
}

/// The length of a frame header in a tag of the given version.
pub fn sizeof_frame_header(version: u8) -> (n: u64)
    ensures
        n == frame_header_len(version),
{
    if version < 3 {
        6
    } else {
        10
    }
}

/// Whether `b` is a capital letter or a digit of ASCII.
pub open spec fn is_id_byte(b: u8) -> bool {
    (0x41 <= b <= 0x5A) || (0x30 <= b <= 0x39)
}

/// Whether `c` is a capital letter or a digit of ASCII.
pub open spec fn is_id_char(c: char) -> bool {
    ('A' <= c <= 'Z') || ('0' <= c <= '9')
}

/// Whether every character of an identifier is a capital letter or a digit.
pub open spec fn is_frame_id(id: Seq<char>) -> bool {
    forall|i: int| 0 <= i < id.len() ==> is_id_char(#[trigger] id[i])
}

/// Whether four bytes spell a frame identifier of ID3v2.3 or later: exactly
/// four capital letters or digits.
pub fn valid_frame_id(buf: &[u8]) -> (valid: bool)
    ensures
        valid == (buf@.len() == 4 && forall|i: int| 0 <= i < 4 ==> is_id_byte(#[trigger] buf@[i])),
{
    if buf.len() != 4 {
        return false;
    }
    let mut i: usize = 0;
    while i < 4
        invariant
            i <= 4,
            buf@.len() == 4,
            forall|k: int| 0 <= k < i ==> is_id_byte(#[trigger] buf@[k]),
        decreases 4 - i,
    {
        let b = buf[i];
        if (b < 0x41 || b > 0x5A) && (b < 0x30 || b > 0x39) {
            return false;
        }
        i += 1;
    }
    true
}

/// How many characters the identifier of a frame has: three before ID3v2.3,
/// four from then on.
pub open spec fn frame_id_len(version: u8) -> int {
    if version < 3 {
        3
    } else {
        4
    }
}

/// The 24-bit size of an ID3v2.2 frame at bytes 3 to 5.
pub open spec fn be24_at_3(buf: Seq<u8>) -> int {
    buf[3] * 0x1_0000 + buf[4] * 0x100 + buf[5]
}

/// The header that stands at the start of `buf`, of which the text of the
/// identifier is given.
///
/// A buffer too short for the identifier holds no header. A buffer that
/// ends before the header does gives the identifier alone, with size zero.
///
/// Before ID3v2.3 a 24-bit size follows the identifier. From ID3v2.3 on a
/// 32-bit size and two flag bytes follow; ID3v2.4 writes the size synch-safe
/// and moved the flags.
pub open spec fn header_with_id(buf: Seq<u8>, version: u8, id: Seq<char>) -> Result<
    HeaderModel,
    Error,
> {
    if buf.len() < frame_id_len(version) {
        Err(Error::Truncated)
    } else {
        let blank = blank_header(version, id);
        if version < 3 {
            Ok(
                HeaderModel {
                    size: if buf.len() < 6 {
                        0
                    } else {
                        be24_at_3(buf) as u64
                    },
                    ..blank
                },
            )
        } else if buf.len() < 10 {
            Ok(blank)
        } else if version == 3 {
            Ok(
                HeaderModel {
                    size: be32(buf.subrange(4, 8)) as u64,
                    tag_alter_preservation: buf[8] & 0x80 != 0,
                    file_alter_preservation: buf[8] & 0x40 != 0,
                    read_only: buf[8] & 0x20 != 0,
                    compression: buf[9] & 0x80 != 0,
                    encryption: buf[9] & 0x40 != 0,
                    grouping_ident: buf[9] & 0x20 != 0,
                    ..blank
                },
            )
        } else {
            Ok(
                HeaderModel {
                    size: size_value(buf.subrange(4, 8)) as u64,
                    tag_alter_preservation: buf[8] & 0x40 != 0,
                    file_alter_preservation: buf[8] & 0x20 != 0,
                    read_only: buf[8] & 0x10 != 0,
                    grouping_ident: buf[9] & 0x40 != 0,
                    compression: buf[9] & 0x08 != 0,
                    encryption: buf[9] & 0x04 != 0,
                    unsynch: buf[9] & 0x02 != 0,
                    data_length_indicator: buf[9] & 0x01 != 0,
                    ..blank
                },
            )
        }
    }
}

/// The header that stands at the start of `buf`. Its identifier is the text
/// of the first three or four bytes.
pub open spec fn parsed_header(buf: Seq<u8>, version: u8) -> Result<HeaderModel, Error> {
    header_with_id(buf, version, ascii_text(buf.subrange(0, frame_id_len(version))))
}

/// The bytes of a frame's field.
///
/// They start behind the frame header and are as many as the header's size
/// says. Where the frame has a data length indicator, or is compressed, four
/// bytes that hold a size come first, and the field is that long instead. A
/// field never reaches past the end of the buffer. A compressed frame that
/// is not also encrypted is not supported.
pub open spec fn field_bytes(buf: Seq<u8>, h: HeaderModel) -> Result<Seq<u8>, Error> {
    let start = frame_header_len(h.version);
    if h.compression || h.data_length_indicator {
        if buf.len() < start + 4 {
            Err(Error::Truncated)
        } else if h.compression && !h.encryption {
            Err(Error::Unsupported)
        } else {
            let len = size_value(buf.subrange(start, start + 4));
            Ok(
                buf.subrange(
                    start + 4,
                    if start + 4 + len < buf.len() {
                        start + 4 + len
                    } else {
                        buf.len() as int
                    },
                ),
            )
        }
    } else if buf.len() < start {
        Err(Error::Truncated)
    } else {
        Ok(
            buf.subrange(
                start,
                if start + h.size < buf.len() {
                    start + h.size
                } else {
                    buf.len() as int
                },
            ),
        )
    }
}

/// A decoded frame.
#[derive(Debug, PartialEq, Eq)]
pub struct Frame {
    pub size: usize,
    pub frame_id: String,
    pub sub: SubClass,
}

/// A `Frame` as a mathematical value.
pub struct FrameModel {
    pub size: usize,
    pub frame_id: Seq<char>,
    pub sub: SubValue,
}

impl View for Frame {
    type V = FrameModel;

    open spec fn view(&self) -> FrameModel {
        FrameModel { size: self.size, frame_id: self.frame_id@, sub: self.sub@ }
    }
}

impl Frame {
    /// Reads the frame header at the start of `buf`, of which the text of
    /// the identifier is given.
    pub fn header_with_id(buf: &[u8], version: u8, frame_id: String) -> (r: Result<Header, Error>)
        ensures
            viewed(r) == header_with_id(buf@, version, frame_id@),
    {
        let mut header = Header::default(version);
        header.frame_id = frame_id;
        if version < 3 {
            if buf.len() < 3 {
                return Err(Error::Truncated);
            }
            header.size = if buf.len() < 6 {
                0
            } else {
                let tmp: [u8; 4] = [0, buf[3], buf[4], buf[5]];
                read_u32(tmp.as_slice()) as u64
            };
        } else {
            if buf.len() < 4 {
                return Err(Error::Truncated);
            }
            if buf.len() >= 10 {
                if version == 3 {
                    header.size = read_u32(&buf[4..8]) as u64;
                    header.tag_alter_preservation = buf[8] & 0x80 != 0;
                    header.file_alter_preservation = buf[8] & 0x40 != 0;
                    header.read_only = buf[8] & 0x20 != 0;
                    header.compression = buf[9] & 0x80 != 0;
                    header.encryption = buf[9] & 0x40 != 0;
                    header.grouping_ident = buf[9] & 0x20 != 0;
                } else {
                    header.size = int_from_buf(&buf[4..8]) as u64;
                    header.tag_alter_preservation = buf[8] & 0x40 != 0;
                    header.file_alter_preservation = buf[8] & 0x20 != 0;
                    header.read_only = buf[8] & 0x10 != 0;
                    header.grouping_ident = buf[9] & 0x40 != 0;
                    header.compression = buf[9] & 0x08 != 0;
                    header.encryption = buf[9] & 0x04 != 0;
                    header.unsynch = buf[9] & 0x02 != 0;
                    header.data_length_indicator = buf[9] & 0x01 != 0;
                }
            }
        }
        Ok(header)
    }

    /// Reads the frame header at the start of `buf`.
    pub fn get_header(buf: &[u8], version: u8) -> (r: Result<Header, Error>)
        ensures
            viewed(r) == parsed_header(buf@, version),
    {
        let id_len: usize = if version < 3 {
            3
        } else {
            4
        };
        if buf.len() < id_len {
            return Err(Error::Truncated);
        }
        Frame::header_with_id(buf, version, from_ascii(&buf[0..id_len]))
    }

    /// Cuts the field of a frame out of `buf`, which starts at the frame's
    /// header.
    pub fn field_data(buf: &[u8], header: &Header) -> (r: Result<Vec<u8>, Error>)
        ensures
            viewed(r) == field_bytes(buf@, header@),
    {
        let start: usize = if header.version < 3 {
            6
        } else {
            10
        };
        if header.compression || header.data_length_indicator {
            if buf.len() < start + 4 {
                return Err(Error::Truncated);
            }
            if header.compression && !header.encryption {
                return Err(Error::Unsupported);
            }
            let len = int_from_buf(&buf[start..start + 4]);
            let offset = start + 4;
            let end = if (len as u64) < (buf.len() - offset) as u64 {
                offset + len as usize
            } else {
                buf.len()
            };
            Ok(slice_to_vec(&buf[offset..end]))
        } else {
            if buf.len() < start {
                return Err(Error::Truncated);
            }
            let end = if header.size < (buf.len() - start) as u64 {
                start + header.size as usize
            } else {
                buf.len()
            };
            Ok(slice_to_vec(&buf[start..end]))
        }
    }
}

/// The unit in which text of this encoding is padded: one byte, or two for
/// the encodings with 16-bit code units.
pub open spec fn padding_unit(kind: StringType) -> int {
    if kind == StringType::Latin1 || kind == StringType::UTF8 {
        1
    } else {
        2
    }
}

/// The index of the last byte of `data`, at or before `from`, that is not
/// zero; 0 where all of them are zero.
pub open spec fn last_nonzero(data: Seq<u8>, from: int) -> int
    decreases from,
{
    if from > 0 && data[from] == 0 {
        last_nonzero(data, from - 1)
    } else {
        from
    }
}

/// Where the text of a field ends: behind its last byte that is not zero,
/// moved up to the next boundary of the encoding's padding unit, and not
/// past the end of the field.
pub open spec fn text_end(data: Seq<u8>) -> int {
    let last = last_nonzero(data, data.len() - 1);
    let aligned = if last % padding_unit(encoding_of(data[0])) != 0 {
        last + 1
    } else {
        last
    };
    if aligned + 1 < data.len() {
        aligned + 1
    } else {
        data.len() as int
    }
}

/// Whether text opens with the byte order mark of little-endian order.
pub open spec fn has_little_endian_mark(text: Seq<u8>) -> bool {
    text.len() >= 2 && text[0] == 0xFF && text[1] == 0xFE
}

/// Whether text of this encoding opens with a byte order mark. Only the
/// encoding that leaves the byte order open does.
pub open spec fn is_marked(kind: StringType) -> bool {
    kind == StringType::UTF16
}

/// Whether the code units of the text are little-endian: as the mark says
/// where the encoding has one, and as the encoding itself says otherwise.
pub open spec fn is_little_endian(text: Seq<u8>, kind: StringType) -> bool {
    if is_marked(kind) {
        has_little_endian_mark(text)
    } else {
        kind == StringType::UTF16le
    }
}

/// The code unit that the two bytes at `at` spell.
pub open spec fn unit_at(text: Seq<u8>, at: int, little: bool) -> u16 {
    if little {
        (text[at + 1] * 0x100 + text[at]) as u16
    } else {
        (text[at] * 0x100 + text[at + 1]) as u16
    }
}

/// How many pairs of bytes at the start of the text give no code unit: the
/// one that is taken for the byte order mark, where the encoding has one.
pub open spec fn mark_units(kind: StringType) -> int {
    if is_marked(kind) {
        1
    } else {
        0
    }
}

/// The code units of UTF-16 text: one for each pair of bytes behind the
/// byte order mark, if the encoding has one. A last odd byte is left out.
pub open spec fn code_units(text: Seq<u8>, kind: StringType) -> Seq<u16> {
    Seq::new(
        if text.len() / 2 >= mark_units(kind) {
            (text.len() / 2 - mark_units(kind)) as nat
        } else {
            0
        },
        |k: int| unit_at(text, 2 * (k + mark_units(kind)), is_little_endian(text, kind)),
    )
}

/// What a text field holds.
///
/// A field of fewer than two bytes holds the empty text. Otherwise the first
/// byte names the encoding and the text runs from the second byte to
/// `text_end`. Text that does not decode makes the frame malformed.
pub open spec fn text_frame(data: Seq<u8>) -> Result<SubValue, Error> {
    if data.len() < 2 {
        Ok(SubValue::Text(Seq::empty(), StringType::UTF16))
    } else {
        let kind = encoding_of(data[0]);
        let text = data.subrange(1, text_end(data));
        match kind {
            StringType::Latin1 => Ok(SubValue::Text(ascii_text(text), kind)),
            StringType::UTF16 | StringType::UTF16be | StringType::UTF16le => text_or_malformed(
                utf16_text(code_units(text, kind)),
                kind,
            ),
            _ => text_or_malformed(
                if valid_utf8(text) {
                    Some(decode_utf8(text))
                } else {
                    None
                },
                kind,
            ),
        }
    }
}

/// A frame's text from what decoding gave: the text with its encoding, or
/// the verdict that the frame is malformed where nothing was decoded.
pub open spec fn text_or_malformed(decoded: Option<Seq<char>>, kind: StringType) -> Result<
    SubValue,
    Error,
> {
    match decoded {
        Some(s) => Ok(SubValue::Text(s, kind)),
        None => Err(Error::Malformed),
    }
}

/// Makes a frame's text of what decoding gave.
pub fn decoded_text(decoded: Option<String>, kind: StringType) -> (r: Result<SubClass, Error>)
    ensures
        viewed(r) == text_or_malformed(
            match decoded {
                Some(s) => Some(s@),
                None => None,
            },
            kind,
        ),
{
    match decoded {
        Some(s) => Ok(SubClass::Text(s, kind)),
        None => Err(Error::Malformed),
    }
}

/// Reads the code units of UTF-16 text of the given encoding.
pub fn utf16_units(text: &[u8], kind: StringType) -> (units: Vec<u16>)
    ensures
        units@ == code_units(text@, kind),
{
    let marked = match kind {
        StringType::UTF16 => true,
        _ => false,
    };
    let little = if marked {
        text.len() >= 2 && text[0] == 0xFF && text[1] == 0xFE
    } else {
        match kind {
            StringType::UTF16le => true,
            _ => false,
        }
    };
    let skipped: usize = if marked {
        1
    } else {
        0
    };
    let n = text.len() / 2;
    let mut units: Vec<u16> = Vec::new();
    let mut i: usize = skipped;
    while i < n
        invariant
            skipped <= i,
            skipped == mark_units(kind),
            n == text@.len() / 2,
            2 * n <= text@.len() <= usize::MAX,
            n >= skipped ==> i <= n,
            n < skipped ==> i == skipped,
            little == is_little_endian(text@, kind),
            units@.len() == i - skipped,
            forall|k: int| 0 <= k < i - skipped ==> units@[k] == code_units(text@, kind)[k],
        decreases n - i,
    {
        let first = text[2 * i] as u16;
        let second = text[2 * i + 1] as u16;
        units.push(
            if little {
                second * 0x100 + first
            } else {
                first * 0x100 + second
            },
        );
        i += 1;
    }
    units
}

/// Decodes the field of a text frame.
pub fn decode_text(data: &[u8]) -> (r: Result<SubClass, Error>)
    ensures
        viewed(r) == text_frame(data@),
{
    if data.len() < 2 {
        return Ok(SubClass::Text(String::new(), StringType::UTF16));
    }
    let kind = StringType::from(data[0]);
    let unit: usize = match kind {
        StringType::Latin1 | StringType::UTF8 => 1,
        _ => 2,
    };
    let mut len: usize = data.len() - 1;
    while len > 0 && data[len] == 0
        invariant
            len < data@.len(),
            last_nonzero(data@, data@.len() - 1) == last_nonzero(data@, len as int),
        decreases len,
    {
        len -= 1;
    }
    if len % unit != 0 {
        len += 1;
    }
    let end = if len < data.len() - 1 {
        len + 1
    } else {
        data.len()
    };
    let text = &data[1..end];
    match kind {
        StringType::Latin1 => Ok(SubClass::Text(from_ascii(text), kind)),
        StringType::UTF16 | StringType::UTF16be | StringType::UTF16le => {
            let units = utf16_units(text, kind);
            decoded_text(string_from_utf16(units.as_slice()), kind)
        },
        _ => decoded_text(utf8_string(text), kind),
    }
}

/// Whether frames of this identifier hold text: those that start with `T`,
/// and three more.
pub open spec fn is_text_id(id: Seq<char>) -> bool {
    (id.len() > 0 && id[0] == 'T') || id == "WFED"@ || id == "MVNM"@ || id == "MVIN"@
}

/// `buf` with the bytes from `start` to `end` freed of unsynchronisation in
/// place: the shorter result stands at `start`, and the bytes behind it stay
/// as they were.
pub open spec fn payload_unsynchronized(buf: Seq<u8>, start: int, end: int) -> Seq<u8> {
    let plain = unsynchronized(buf.subrange(start, end));
    buf.subrange(0, start) + plain + buf.subrange(start + plain.len(), buf.len() as int)
}

/// Where the payload of a frame of `size` bytes ends in a buffer that starts
/// at the frame's ten-byte header.
pub open spec fn payload_end(buf: Seq<u8>, size: int) -> int {
    if 10 + size < buf.len() {
        10 + size
    } else {
        buf.len() as int
    }
}

/// The text of the frame that starts at the start of `buf`. From ID3v2.4 on,
/// an unsynchronised frame has its payload freed of that before the field is
/// cut out.
pub open spec fn frame_text(buf: Seq<u8>, unsynch: bool, header: HeaderModel) -> Result<
    SubValue,
    Error,
> {
    let bytes = if header.version > 3 && unsynch {
        payload_unsynchronized(buf, 10, payload_end(buf, header.size as int))
    } else {
        buf
    };
    match field_bytes(bytes, header) {
        Err(e) => Err(e),
        Ok(data) => text_frame(data),
    }
}

/// Whether the identifier at the start of `buf` is one of three characters
/// written in the four-character field of ID3v2.3: its fourth byte is zero.
pub open spec fn is_shortened(buf: Seq<u8>, version: u8) -> bool {
    version == 3 && buf.len() >= 4 && buf[3] == 0
}

/// How many bytes the identifier at the start of `buf` has: three before
/// ID3v2.3 and where it is shortened, four otherwise.
pub open spec fn id_len_at(buf: Seq<u8>, version: u8) -> int {
    if version < 3 || is_shortened(buf, version) {
        3
    } else {
        4
    }
}

/// The text of the identifier at the start of `buf`.
pub open spec fn id_text_at(buf: Seq<u8>, version: u8) -> Seq<char> {
    ascii_text(buf.subrange(0, id_len_at(buf, version)))
}

/// The header of the frame at the start of `buf`, of which the text of the
/// identifier is given, once it has passed the checks: an error, no frame
/// (`None`, where the tag's frames end), or the header.
///
/// There is no frame where the identifier has not as many characters as its
/// bytes are, where the size is zero (or not above four, with a data length
/// indicator), or where the size is above the length of the buffer. An
/// identifier with a character that is neither a capital letter nor a digit
/// is malformed. A compressed or encrypted frame is not supported.
pub open spec fn checked_header(buf: Seq<u8>, version: u8, id: Seq<char>) -> Result<
    Option<HeaderModel>,
    Error,
> {
    match header_with_id(buf, version, id) {
        Err(e) => Err(e),
        Ok(header) => {
            let least: int = if header.data_length_indicator {
                4
            } else {
                0
            };
            if id.len() != id_len_at(buf, version) || header.size <= least || header.size
                > buf.len() {
                Ok(None)
            } else if !is_frame_id(id) {
                Err(Error::Malformed)
            } else if header.compression || header.encryption {
                Err(Error::Unsupported)
            } else {
                Ok(Some(header))
            }
        },
    }
}

/// The header of the frame at the start of `buf`, once it has passed the
/// checks. An ID3v2.3 identifier whose fourth byte is zero is taken as a
/// three-character identifier.
pub open spec fn accepted_header(buf: Seq<u8>, version: u8) -> Result<Option<HeaderModel>, Error> {
    checked_header(buf, version, id_text_at(buf, version))
}

/// An ID3v2.3 identifier whose fourth byte is zero is read as the three
/// characters before it and held to the rule for identifiers of three
/// characters: the frame is accepted only if these are three capital letters
/// or digits, and it then carries them as its identifier.
pub proof fn lemma_shortened_identifier(buf: Seq<u8>, id: Seq<char>)
    requires
        buf.len() >= 4,
        buf[3] == 0,
    ensures
        accepted_header(buf, 3) == checked_header(buf, 3, ascii_text(buf.subrange(0, 3))),
        checked_header(buf, 3, id) matches Ok(Some(header)) ==> header.frame_id == id && id.len()
            == 3 && is_frame_id(id),
        id.len() != 3 ==> checked_header(buf, 3, id) == Ok::<Option<HeaderModel>, Error>(None),
        !is_frame_id(id) ==> !(checked_header(buf, 3, id) matches Ok(Some(_))),
{
}

/// What stands at the start of `buf`, in a tag with the header `tag`, where
/// the text of the frame's identifier is given: an error, no frame (`None`,
/// where the tag's frames end), or a frame.
///
/// The frame header has to pass the checks of `checked_header`. A frame
/// whose identifier, brought up to date, is dropped or holds no text stays
/// undecoded. A text frame is decoded from its field. The frame keeps the
/// identifier it was written with.
pub open spec fn frame_with_id(buf: Seq<u8>, tag: TagHeader, id: Seq<char>) -> Result<
    Option<FrameModel>,
    Error,
> {
    match checked_header(buf, tag.major_version, id) {
        Err(e) => Err(e),
        Ok(None) => Ok(None),
        Ok(Some(header)) => {
            let current = HeaderModel { frame_id: renamed(header.frame_id), ..header };
            if dropped(tag.major_version, current.frame_id) || !is_text_id(current.frame_id) {
                Ok(
                    Some(
                        FrameModel {
                            size: header.size as usize,
                            frame_id: header.frame_id,
                            sub: SubValue::Unknown,
                        },
                    ),
                )
            } else {
                match frame_text(buf, tag.unsynch || header.unsynch, current) {
                    Err(e) => Err(e),
                    Ok(sub) => Ok(
                        Some(
                            FrameModel {
                                size: header.size as usize,
                                frame_id: header.frame_id,
                                sub,
                            },
                        ),
                    ),
                }
            }
        },
    }
}

/// What stands at the start of `buf`, in a tag with the header `tag`: an
/// error, no frame (`None`, where the tag's frames end), or a frame.
pub open spec fn frame_outcome(buf: Seq<u8>, tag: TagHeader) -> Result<Option<FrameModel>, Error> {
    frame_with_id(buf, tag, id_text_at(buf, tag.major_version))
}

/// An optional header replaced by its view.
pub open spec fn header_view(r: Result<Option<Header>, Error>) -> Result<
    Option<HeaderModel>,
    Error,
> {
    match r {
        Ok(Some(header)) => Ok(Some(header@)),
        Ok(None) => Ok(None),
        Err(e) => Err(e),
    }
}

/// The size in a frame header fits in 32 bits.
pub proof fn lemma_header_size(buf: Seq<u8>, version: u8, id: Seq<char>)
    ensures
        header_with_id(buf, version, id) matches Ok(header) ==> header.size <= u32::MAX
            && header.version == version && header.frame_id == id,
{
    if buf.len() >= 10 && version > 3 {
        let field = buf.subrange(4, 8);
        assert(field.take(4) =~= field);
        if is_synchsafe(field) {
            lemma_seven_bit_value_bound(field);
        }
    }
}

/// What holds of every frame that is read: its identifier has three or
/// four characters, each a capital letter or a digit, and its size is above
/// zero and not above the length of the buffer.
pub proof fn lemma_frame_with_id(buf: Seq<u8>, tag: TagHeader, id: Seq<char>)
    ensures
        frame_with_id(buf, tag, id) matches Ok(Some(frame)) ==> {
            &&& frame.frame_id == id
            &&& is_frame_id(frame.frame_id)
            &&& frame.frame_id.len() == 3 || frame.frame_id.len() == 4
            &&& tag.major_version < 3 ==> frame.frame_id.len() == 3
            &&& tag.major_version > 3 ==> frame.frame_id.len() == 4
            &&& 0 < frame.size <= buf.len()
        },
{
    lemma_header_size(buf, tag.major_version, id);
}

/// A frame outcome with the frame replaced by its view.
pub open spec fn outcome_view(r: Result<Option<Frame>, Error>) -> Result<
    Option<FrameModel>,
    Error,
> {
    match r {
        Ok(Some(frame)) => Ok(Some(frame@)),
        Ok(None) => Ok(None),
        Err(e) => Err(e),
    }
}

/// Whether every character of `id` is a capital letter or a digit.
pub fn is_valid_id(id: &str) -> (valid: bool)
    ensures
        valid == is_frame_id(id@),
{
    let n = id.unicode_len();
    let mut i: usize = 0;
    while i < n
        invariant
            i <= n,
            n == id@.len(),
            forall|k: int| 0 <= k < i ==> is_id_char(#[trigger] id@[k]),
        decreases n - i,
    {
        let c = id.get_char(i);
        if !((c >= 'A' && c <= 'Z') || (c >= '0' && c <= '9')) {
            return false;
        }
        i += 1;
    }
    true
}

/// Whether frames of the identifier `id` hold text.
pub fn holds_text(id: &str) -> (yes: bool)
    ensures
        yes == is_text_id(id@),
{
    (id.unicode_len() > 0 && id.get_char(0) == 'T') || str_eq(id, "WFED") || str_eq(id, "MVNM")
        || str_eq(id, "MVIN")
}

/// A copy of `buf` in which the bytes from `start` to `end` are freed of
/// unsynchronisation in place.
fn unsynchronize_payload(buf: &[u8], start: usize, end: usize) -> (out: Vec<u8>)
    requires
        start <= end <= buf@.len(),
    ensures
        out@ == payload_unsynchronized(buf@, start as int, end as int),
{
    let plain = decode_slice(&buf[start..end]);
    proof {
        lemma_unsynchronized_len(buf@.subrange(start as int, end as int));
    }
    let mut out: Vec<u8> = slice_to_vec(&buf[0..start]);
    out.extend_from_slice(plain.as_slice());
    out.extend_from_slice(&buf[start + plain.len()..buf.len()]);
    out
}

/// Decodes the text of the frame that starts at the start of `buf`.
fn read_text(buf: &[u8], unsynch: bool, header: &Header) -> (r: Result<SubClass, Error>)
    requires
        header.version > 3 && unsynch ==> buf@.len() >= 10,
    ensures
        viewed(r) == frame_text(buf@, unsynch, header@),
{
    let field = if header.version > 3 && unsynch {
        let end = if header.size < (buf.len() - 10) as u64 {
            10 + header.size as usize
        } else {
            buf.len()
        };
        let plain = unsynchronize_payload(buf, 10, end);
        Frame::field_data(plain.as_slice(), header)
    } else {
        Frame::field_data(buf, header)
    };
    match field {
        Ok(data) => decode_text(data.as_slice()),
        Err(e) => Err(e),
    }
}

/// Reads the text of the identifier at the start of `buf`.
fn read_id(buf: &[u8], version: u8) -> (id: String)
    requires
        buf@.len() >= frame_id_len(version),
    ensures
        id@ == id_text_at(buf@, version),
{
    let id_len: usize = if version < 3 || (version == 3 && buf[3] == 0) {
        3
    } else {
        4
    };
    from_ascii(&buf[0..id_len])
}

impl Frame {
    /// Holds the frame header at the start of `buf`, of which the text of
    /// the identifier is given, to the checks a frame has to pass.
    pub fn check_header(buf: &[u8], version: u8, frame_id: String) -> (r: Result<
        Option<Header>,
        Error,
    >)
        ensures
            header_view(r) == checked_header(buf@, version, frame_id@),
            r matches Ok(Some(h)) ==> h.version == version && 0 < h.size <= buf@.len() && h.size
                <= usize::MAX && (version >= 3 ==> buf@.len() >= 10),
    {
        let id_len: usize = if version < 3 || (version == 3 && buf.len() >= 4 && buf[3] == 0) {
            3
        } else {
            4
        };
        let id_matches = frame_id.as_str().unicode_len() == id_len;
        let id_valid = is_valid_id(frame_id.as_str());
        let header = match Frame::header_with_id(buf, version, frame_id) {
            Ok(h) => h,
            Err(e) => {
                return Err(e);
            },
        };
        let least: u64 = if header.data_length_indicator {
            4
        } else {
            0
        };
        if !id_matches || header.size <= least || header.size > buf.len() as u64 {
            return Ok(None);
        }
        if !id_valid {
            return Err(Error::Malformed);
        }
        if header.compression || header.encryption {
            return Err(Error::Unsupported);
        }
        Ok(Some(header))
    }

    /// Reads the frame header at the start of `buf` and holds it to the
    /// checks a frame has to pass.
    pub fn accept_header(buf: &[u8], version: u8) -> (r: Result<Option<Header>, Error>)
        ensures
            header_view(r) == accepted_header(buf@, version),
            r matches Ok(Some(h)) ==> h.version == version && 0 < h.size <= buf@.len() && h.size
                <= usize::MAX && (version >= 3 ==> buf@.len() >= 10),
    {
        let least: usize = if version < 3 {
            3
        } else {
            4
        };
        if buf.len() < least {
            return Err(Error::Truncated);
        }
        Frame::check_header(buf, version, read_id(buf, version))
    }

    /// Reads the frame at the start of `buf`, in a tag with the header
    /// `header`, where the text of the frame's identifier is given.
    pub fn from_buffer_with_id(buf: &[u8], header: &TagHeader, frame_id: String) -> (r: Result<
        Option<Frame>,
        Error,
    >)
        ensures
            outcome_view(r) == frame_with_id(buf@, *header, frame_id@),
            r matches Ok(Some(frame)) ==> 0 < frame.size <= buf@.len() && is_frame_id(
                frame.frame_id@,
            ) && (frame.frame_id@.len() == 3 || frame.frame_id@.len() == 4),
    {
        let version = header.major_version;
        let mut frame_header = match Frame::check_header(buf, version, frame_id) {
            Ok(Some(h)) => h,
            Ok(None) => {
                return Ok(None);
            },
            Err(e) => {
                return Err(e);
            },
        };
        let size = frame_header.size as usize;
        let frame_id = frame_header.frame_id.clone();
        let keep = frame_header.update(version);
        if !keep || !holds_text(frame_header.frame_id.as_str()) {
            return Ok(Some(Frame { size, frame_id, sub: SubClass::Unknown }));
        }
        match read_text(buf, header.unsynch || frame_header.unsynch, &frame_header) {
            Ok(sub) => Ok(Some(Frame { size, frame_id, sub })),
            Err(e) => Err(e),
        }
    }

    /// Reads the frame at the start of `buf`, in a tag with the header
    /// `header`.
    pub fn from_buffer(buf: &[u8], header: &TagHeader) -> (r: Result<Option<Frame>, Error>)
        ensures
            outcome_view(r) == frame_outcome(buf@, *header),
            r matches Ok(Some(frame)) ==> 0 < frame.size <= buf@.len() && is_frame_id(
                frame.frame_id@,
            ) && (frame.frame_id@.len() == 3 || frame.frame_id@.len() == 4),
    {
        let least: usize = if header.major_version < 3 {
            3
        } else {
            4
        };
        if buf.len() < least {
            return Err(Error::Truncated);
        }
        Frame::from_buffer_with_id(buf, header, read_id(buf, header.major_version))
    }
}

} // verus!
