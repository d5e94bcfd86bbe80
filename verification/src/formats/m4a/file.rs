//! An MPEG-4 file: its atoms, and the tag that stands among them.

use vstd::prelude::*;
use vstd::utf8::{decode_utf8, valid_utf8};
use std::rc::Rc;
use crate::formats::error::Error;
use crate::formats::m4a::atom::{
    atoms_view,
    file_atoms,
    find_atom,
    first_named,
    read_atoms,
    Atom,
    AtomModel,
};
use crate::formats::m4a::atom::payload_of;
use crate::formats::m4a::item::{is_text_payload, lemma_title_item};
use crate::formats::m4a::tag::{lemma_last_title_wins, list_fields, text_at, Tag};
use crate::formats::meta::{share, TagValue};

verus! {

/// The atom that holds the metadata list: the first `ilst` in the first
/// `meta` in the first `udta` of the given `moov` atom.
pub open spec fn list_atom(moov: AtomModel) -> Option<AtomModel> {
    match first_named(moov.children, "udta"@) {
        None => None,
        Some(udta) => match first_named(udta.children, "meta"@) {
            None => None,
            Some(meta) => first_named(meta.children, "ilst"@),
        },
    }
}

/// The fields of the metadata list under the given `moov` atom. There are
/// none where the list is missing and where it cannot be decoded.
pub open spec fn moov_fields(data: Seq<u8>, moov: AtomModel) -> Option<Map<Seq<char>, TagValue>> {
    match list_atom(moov) {
        None => None,
        Some(list) => match list_fields(data, list.children) {
            Err(_) => None,
            Ok(fields) => Some(fields),
        },
    }
}

/// The fields of an MPEG-4 file: those of the metadata list under its first
/// `moov` atom. A file without them has not what is looked for.
pub open spec fn file_fields(data: Seq<u8>) -> Result<Map<Seq<char>, TagValue>, Error> {
    match first_named(file_atoms(data), "moov"@) {
        None => Err(Error::NotFound),
        Some(moov) => match moov_fields(data, moov) {
            None => Err(Error::NotFound),
            Some(fields) => Ok(fields),
        },
    }
}

/// From the bytes to the title. Take a file whose first `moov` atom leads
/// to a metadata list that can be decoded. If the last title item of the
/// list holds, as its one value, text of well-formed UTF-8, that text is the
/// title of the file.
pub proof fn lemma_title_of_file(
    data: Seq<u8>,
    moov: AtomModel,
    list: AtomModel,
    n: int,
    text: Seq<u8>,
)
    requires
        first_named(file_atoms(data), "moov"@) == Some(moov),
        list_atom(moov) == Some(list),
        list_fields(data, list.children) is Ok,
        0 <= n < list.children.len(),
        list.children[n].name == "©nam"@,
        forall|j: int|
            n < j < list.children.len() ==> (#[trigger] list.children[j]).name != "©nam"@,
        payload_of(data, list.children[n]) matches Ok(payload) && is_text_payload(payload, text),
        valid_utf8(text),
    ensures
        file_fields(data) matches Ok(fields) && text_at(fields, "©nam"@) == Some(
            decode_utf8(text),
        ),
{
    lemma_last_title_wins(data, list.children, n);
    lemma_title_item(data, list.children[n], text);
}

/// Reads the tag under the given `moov` atom: the metadata list at
/// `udta > meta > ilst`.
pub fn read_tag(moov: &Atom, data: &[u8]) -> (tag: Option<Tag>)
    ensures
        match tag {
            Some(tag) => moov_fields(data@, moov@) == Some(tag@),
            None => moov_fields(data@, moov@) is None,
        },
{
    let udta = match find_atom(&moov.children, "udta") {
        Some(udta) => udta,
        None => {
            return None;
        },
    };
    let meta = match find_atom(&udta.children, "meta") {
        Some(meta) => meta,
        None => {
            return None;
        },
    };
    let list = match find_atom(&meta.children, "ilst") {
        Some(list) => list,
        None => {
            return None;
        },
    };
    match Tag::from_atom(&list.children, data) {
        Ok(tag) => Some(tag),
        Err(_) => None,
    }
}

/// An MPEG-4 file, read.
pub struct File {
    tag: Rc<Tag>,
    atoms: Vec<Atom>,
}

impl File {
    /// The fields of the file's tag.
    pub closed spec fn fields(&self) -> Map<Seq<char>, TagValue> {
        self.tag@
    }

    /// The atoms of the file.
    pub closed spec fn tree(&self) -> Seq<AtomModel> {
        atoms_view(self.atoms@)
    }

    /// Reads the atoms of an MPEG-4 file out of its bytes, and its tag out
    /// of the metadata list at `moov > udta > meta > ilst`.
    pub fn open(data: &[u8]) -> (r: Result<Self, Error>)
        ensures
            match r {
                Ok(file) => file_fields(data@) == Ok::<Map<Seq<char>, TagValue>, Error>(
                    file.fields(),
                ) && file.tree() == file_atoms(data@),
                Err(e) => file_fields(data@) == Err::<Map<Seq<char>, TagValue>, Error>(e),
            },
    {
        let atoms = read_atoms(data);
        let found = match find_atom(&atoms, "moov") {
            Some(moov) => read_tag(moov, data),
            None => None,
        };
        match found {
            Some(tag) => Ok(File { tag: Rc::new(tag), atoms }),
            None => Err(Error::NotFound),
        }
    }

    /// The tag of the file, shared.
    pub fn tag(&self) -> (tag: Rc<Tag>)
        ensures
            tag@ == self.fields(),
    {
        share(&self.tag)
    }

    /// The atoms of the file.
    pub fn atoms(&self) -> (atoms: &Vec<Atom>)
        ensures
            atoms_view(atoms@) == self.tree(),
    {
        &self.atoms
    }
}

/// The properties of the audio stream of an MPEG-4 file. None of them is
/// read: each is reported as zero.
pub struct _Audio {}

impl _Audio {
    /// The bit rate, which is not read.
    pub fn bitrate(&self) -> (r: u32)
        ensures
            r == 0,
    {
        0
    }

    /// The sample rate, which is not read.
    pub fn samplerate(&self) -> (r: u32)
        ensures
            r == 0,
    {
        0
    }

    /// The number of channels, which is not read.
    pub fn channels(&self) -> (r: u32)
        ensures
            r == 0,
    {
        0
    }

    /// The length of the stream, which is not read.
    pub fn length(&self) -> (r: u32)
        ensures
            r == 0,
    {
        0
    }
}

} // verus!
