//! Reads descriptive metadata (title, artist, album, year, comment, track
//! number, genre) out of audio files, straight from their bytes.
//!
//! Two families of containers are understood: MPEG-4 files with an iTunes
//! `ilst` list, and MPEG audio files that carry ID3v1 or ID3v2 tags. Every
//! parser works on a byte slice and is verified against a mathematical model
//! of the format.

use vstd::prelude::*;
use crate::formats::error::Error;
use crate::formats::m4a;
use crate::formats::meta::TagValue;
use crate::formats::mpeg;
use crate::formats::mpeg::frame::SubValue;
use crate::formats::text::str_eq;

pub mod formats;

verus! {

/// A file that was read, of either family.
pub enum Media {
    Mpeg(mpeg::file::File),
    M4a(m4a::file::File),
}

impl Media {
    /// The title of the file.
    pub fn title(&self) -> (r: Option<String>)
        ensures
            match self {
                Media::Mpeg(file) => mpeg::tag::text_view(r) == mpeg::tag::text_at(file@, "TIT2"@),
                Media::M4a(file) => m4a::tag::text_view(r) == m4a::tag::text_at(
                    file.fields(),
                    "©nam"@,
                ),
            },
    {
        match self {
            Media::Mpeg(file) => file.tag().title(),
            Media::M4a(file) => file.tag().title(),
        }
    }

    /// The artist of the file.
    pub fn artist(&self) -> (r: Option<String>)
        ensures
            match self {
                Media::Mpeg(file) => mpeg::tag::text_view(r) == mpeg::tag::text_at(file@, "TPE1"@),
                Media::M4a(file) => m4a::tag::text_view(r) == m4a::tag::text_at(
                    file.fields(),
                    "©ART"@,
                ),
            },
    {
        match self {
            Media::Mpeg(file) => file.tag().artist(),
            Media::M4a(file) => file.tag().artist(),
        }
    }

    /// The album of the file.
    pub fn album(&self) -> (r: Option<String>)
        ensures
            match self {
                Media::Mpeg(file) => mpeg::tag::text_view(r) == mpeg::tag::text_at(file@, "TALB"@),
                Media::M4a(file) => m4a::tag::text_view(r) == m4a::tag::text_at(
                    file.fields(),
                    "©alb"@,
                ),
            },
    {
        match self {
            Media::Mpeg(file) => file.tag().album(),
            Media::M4a(file) => file.tag().album(),
        }
    }

    /// The year of the file.
    pub fn year(&self) -> (r: Option<u64>)
        ensures
            match self {
                Media::Mpeg(file) => r == mpeg::tag::uint_at(file@, "TDRC"@),
                Media::M4a(file) => r == m4a::tag::uint_at(file.fields(), "©day"@),
            },
    {
        match self {
            Media::Mpeg(file) => file.tag().year(),
            Media::M4a(file) => file.tag().year(),
        }
    }

    /// The comment of the file.
    pub fn comment(&self) -> (r: Option<String>)
        ensures
            match self {
                Media::Mpeg(file) => mpeg::tag::text_view(r) == mpeg::tag::text_at(file@, "COMM"@),
                Media::M4a(file) => m4a::tag::text_view(r) == m4a::tag::text_at(
                    file.fields(),
                    "©cmt"@,
                ),
            },
    {
        match self {
            Media::Mpeg(file) => file.tag().comment(),
            Media::M4a(file) => file.tag().comment(),
        }
    }

    /// The track number of the file.
    pub fn track(&self) -> (r: Option<u32>)
        ensures
            r == (match (match self {
                Media::Mpeg(file) => mpeg::tag::uint_at(file@, "TRCK"@),
                Media::M4a(file) => m4a::tag::uint_at(file.fields(), "trkn"@),
            }) {
                Some(n) => Some((n % 0x1_0000_0000) as u32),
                None => None,
            }),
    {
        match self {
            Media::Mpeg(file) => file.tag().track(),
            Media::M4a(file) => file.tag().track(),
        }
    }

    /// The genre of the file.
    pub fn genre(&self) -> (r: Option<String>)
        ensures
            match self {
                Media::Mpeg(file) => mpeg::tag::text_view(r) == mpeg::tag::text_at(file@, "TCON"@),
                Media::M4a(file) => m4a::tag::text_view(r) == m4a::tag::text_at(
                    file.fields(),
                    "gnre"@,
                ),
            },
    {
        match self {
            Media::Mpeg(file) => file.tag().genre(),
            Media::M4a(file) => file.tag().genre(),
        }
    }
}

/// The families of formats, as a file's extension tells them.
#[derive(Clone, Copy, Debug, PartialEq, Eq, Structural)]
pub enum Format {
    Mpeg,
    M4a,
}

/// The format that files with the given extension have: `mp3` is MPEG
/// audio, `m4a` and `mp4` are MPEG-4.
pub open spec fn format_of(extension: Seq<char>) -> Option<Format> {
    if extension == "mp3"@ {
        Some(Format::Mpeg)
    } else if extension == "m4a"@ || extension == "mp4"@ {
        Some(Format::M4a)
    } else {
        None
    }
}

/// Tells the format of a file by its extension.
pub fn format_for_extension(extension: &str) -> (format: Option<Format>)
    ensures
        format == format_of(extension@),
{
    if str_eq(extension, "mp3") {
        Some(Format::Mpeg)
    } else if str_eq(extension, "m4a") || str_eq(extension, "mp4") {
        Some(Format::M4a)
    } else {
        None
    }
}

/// Reads a file of which the extension and the bytes are given. A file
/// without an extension, or with one that names no format that is read, is
/// not supported.
pub fn load(extension: Option<&str>, data: &[u8]) -> (r: Result<Media, Error>)
    ensures
        match (match extension {
            Some(ext) => format_of(ext@),
            None => None,
        }) {
            None => r == Err::<Media, Error>(Error::Unsupported),
            Some(Format::Mpeg) => match r {
                Ok(Media::Mpeg(file)) => mpeg::file::file_fields(data@) == Ok::<
                    Map<Seq<char>, SubValue>,
                    Error,
                >(file@),
                Ok(_) => false,
                Err(e) => mpeg::file::file_fields(data@) == Err::<Map<Seq<char>, SubValue>, Error>(
                    e,
                ),
            },
            Some(Format::M4a) => match r {
                Ok(Media::M4a(file)) => m4a::file::file_fields(data@) == Ok::<
                    Map<Seq<char>, TagValue>,
                    Error,
                >(file.fields()) && file.tree() == m4a::atom::file_atoms(data@),
                Ok(_) => false,
                Err(e) => m4a::file::file_fields(data@) == Err::<Map<Seq<char>, TagValue>, Error>(
                    e,
                ),
            },
        },
{
    let format = match extension {
        Some(ext) => format_for_extension(ext),
        None => None,
    };
    match format {
        Some(Format::Mpeg) => match mpeg::file::File::open(data) {
            Ok(file) => Ok(Media::Mpeg(file)),
            Err(e) => Err(e),
        },
        Some(Format::M4a) => match m4a::file::File::open(data) {
            Ok(file) => Ok(Media::M4a(file)),
            Err(e) => Err(e),
        },
        None => Err(Error::Unsupported),
    }
}

} // verus!
