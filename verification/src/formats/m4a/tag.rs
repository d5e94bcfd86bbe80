//! The tag of an MPEG-4 file: the fields of its metadata list.

use vstd::prelude::*;
use crate::formats::dictionary::Dictionary;
use crate::formats::error::{viewed, Error};
use crate::formats::m4a::atom::{atoms_view, lemma_atoms_view, payload_of, Atom, AtomModel};
use crate::formats::m4a::item::{
    item_field,
    lemma_free_form_key,
    lemma_title_is_text,
    read_item,
};
use crate::formats::meta::{TagData, TagValue};

verus! {

/// The fields of an MPEG-4 file, each under the name of its item.
pub struct Tag {
    items: Dictionary<TagData>,
}

impl View for Tag {
    type V = Map<Seq<char>, TagValue>;

    closed spec fn view(&self) -> Map<Seq<char>, TagValue> {
        self.items@
    }
}

/// The fields that the items of a list give, one after the other: of two
/// with one key the later one stays. The first item that cannot be decoded
/// gives its error to the whole.
pub open spec fn list_fields(data: Seq<u8>, atoms: Seq<AtomModel>) -> Result<
    Map<Seq<char>, TagValue>,
    Error,
>
    decreases atoms.len(),
{
    if atoms.len() == 0 {
        Ok(Map::empty())
    } else {
        match list_fields(data, atoms.drop_last()) {
            Err(e) => Err(e),
            Ok(fields) => match item_field(data, atoms.last()) {
                Err(e) => Err(e),
                Ok(None) => Ok(fields),
                Ok(Some((key, value))) => Ok(fields.insert(key, value)),
            },
        }
    }
}

/// Where an item cannot be decoded, and those before it can, the list
/// cannot be decoded, for the same reason.
proof fn lemma_list_fields_error(data: Seq<u8>, atoms: Seq<AtomModel>, n: int)
    requires
        0 <= n < atoms.len(),
        list_fields(data, atoms.take(n)) is Ok,
        item_field(data, atoms[n]) is Err,
    ensures
        list_fields(data, atoms) == Err::<Map<Seq<char>, TagValue>, Error>(
            item_field(data, atoms[n])->Err_0,
        ),
    decreases atoms.len(),
{
    if n < atoms.len() - 1 {
        assert(atoms.drop_last().take(n) =~= atoms.take(n));
        lemma_list_fields_error(data, atoms.drop_last(), n);
    }
}

/// The title field of a list is what the last title item of the list gives.
pub proof fn lemma_last_title_wins(data: Seq<u8>, atoms: Seq<AtomModel>, n: int)
    requires
        0 <= n < atoms.len(),
        atoms[n].name == "©nam"@,
        forall|j: int| n < j < atoms.len() ==> (#[trigger] atoms[j]).name != "©nam"@,
        list_fields(data, atoms) is Ok,
    ensures
        item_field(data, atoms[n]) matches Ok(Some((key, value))) && key == "©nam"@ && list_fields(
            data,
            atoms,
        )->Ok_0.contains_key(key) && list_fields(data, atoms)->Ok_0[key] == value,
    decreases atoms.len(),
{
    lemma_title_is_text();
    let front = atoms.drop_last();
    let last = atoms.last();
    if n < atoms.len() - 1 {
        assert(front[n] == atoms[n]);
        assert forall|j: int| n < j < front.len() implies (#[trigger] front[j]).name
            != "©nam"@ by {
            assert(front[j] == atoms[j]);
        }
        lemma_last_title_wins(data, front, n);
        if let Ok(Some((key, value))) = item_field(data, last) {
            assert(key != "©nam"@) by {
                if last.name == "----"@ {
                    lemma_free_form_key(payload_of(data, last)->Ok_0);
                } else {
                    assert(key == last.name);
                }
            }
        }
    }
}

/// The text stored under `key`, where text is stored there.
pub open spec fn text_at(fields: Map<Seq<char>, TagValue>, key: Seq<char>) -> Option<Seq<char>> {
    if fields.contains_key(key) {
        match fields[key] {
            TagValue::Str(s) => Some(s),
            _ => None,
        }
    } else {
        None
    }
}

/// The number stored under `key`, where a number is stored there.
pub open spec fn uint_at(fields: Map<Seq<char>, TagValue>, key: Seq<char>) -> Option<u64> {
    if fields.contains_key(key) {
        match fields[key] {
            TagValue::Uint(n) => Some(n),
            _ => None,
        }
    } else {
        None
    }
}

/// An optional string replaced by its view.
pub open spec fn text_view(s: Option<String>) -> Option<Seq<char>> {
    match s {
        Some(s) => Some(s@),
        None => None,
    }
}

impl Tag {
    /// Decodes the items of a metadata list. `atoms` are the atoms inside
    /// the `ilst` atom, `data` the bytes of the file.
    pub fn from_atom(atoms: &Vec<Atom>, data: &[u8]) -> (r: Result<Self, Error>)
        ensures
            viewed(r) == list_fields(data@, atoms_view(atoms@)),
    {
        let mut tag = Tag { items: Dictionary::new() };
        let ghost all = atoms_view(atoms@);
        let mut i: usize = 0;
        proof {
            lemma_atoms_view(atoms@);
        }
        while i < atoms.len()
            invariant
                i <= atoms@.len(),
                all == atoms_view(atoms@),
                all.len() == atoms@.len(),
                forall|k: int| 0 <= k < atoms@.len() ==> (#[trigger] all[k]) == atoms@[k]@,
                list_fields(data@, all.take(i as int)) == Ok::<Map<Seq<char>, TagValue>, Error>(
                    tag@,
                ),
            decreases atoms@.len() - i,
        {
            let ghost head = all.take(i + 1);
            assert(head.drop_last() =~= all.take(i as int));
            match read_item(data, &atoms[i]) {
                Err(e) => {
                    proof {
                        lemma_list_fields_error(data@, all, i as int);
                    }
                    return Err(e);
                },
                Ok(None) => {},
                Ok(Some((key, value))) => {
                    tag.items.insert(key, value);
                },
            }
            i += 1;
        }
        assert(all.take(i as int) =~= all);
        Ok(tag)
    }

    /// The title: the text of the item `©nam`.
    pub fn title(&self) -> (r: Option<String>)
        ensures
            text_view(r) == text_at(self@, "©nam"@),
    {
        match self.items.get("©nam") {
            Some(TagData::Str(s)) => Some(s.clone()),
            _ => None,
        }
    }

    /// The artist: the text of the item `©ART`.
    pub fn artist(&self) -> (r: Option<String>)
        ensures
            text_view(r) == text_at(self@, "©ART"@),
    {
        match self.items.get("©ART") {
            Some(TagData::Str(s)) => Some(s.clone()),
            _ => None,
        }
    }

    /// The album: the text of the item `©alb`.
    pub fn album(&self) -> (r: Option<String>)
        ensures
            text_view(r) == text_at(self@, "©alb"@),
    {
        match self.items.get("©alb") {
            Some(TagData::Str(s)) => Some(s.clone()),
            _ => None,
        }
    }

    /// The year: the number of the item `©day`, where that item holds a
    /// number.
    pub fn year(&self) -> (r: Option<u64>)
        ensures
            r == uint_at(self@, "©day"@),
    {
        match self.items.get("©day") {
            Some(TagData::Uint(n)) => Some(*n),
            _ => None,
        }
    }

    /// The comment: the text of the item `©cmt`.
    pub fn comment(&self) -> (r: Option<String>)
        ensures
            text_view(r) == text_at(self@, "©cmt"@),
    {
        match self.items.get("©cmt") {
            Some(TagData::Str(s)) => Some(s.clone()),
            _ => None,
        }
    }

    /// The track number: the number of the item `trkn`, where that item
    /// holds a single number, cut to 32 bits.
    pub fn track(&self) -> (r: Option<u32>)
        ensures
            r == (match uint_at(self@, "trkn"@) {
                Some(n) => Some((n % 0x1_0000_0000) as u32),
                None => None,
            }),
    {
        match self.items.get("trkn") {
            Some(TagData::Uint(n)) => Some((*n % 0x1_0000_0000) as u32),
            _ => None,
        }
    }

    /// The genre: the text of the item `gnre`.
    pub fn genre(&self) -> (r: Option<String>)
        ensures
            text_view(r) == text_at(self@, "gnre"@),
    {
        match self.items.get("gnre") {
            Some(TagData::Str(s)) => Some(s.clone()),
            _ => None,
        }
    }
}

} // verus!
