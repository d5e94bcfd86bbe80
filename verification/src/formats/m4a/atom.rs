//! The tree of atoms that an MPEG-4 file is made of.

use vstd::prelude::*;
use crate::formats::bytes::{be32, be64, read_u32, read_u64};
use crate::formats::error::Error;
use crate::formats::text::{latin1, latin1_string, str_eq};

verus! {

/// One atom of an MPEG-4 file: a record that says how long it is and what
/// it is called, and that may hold further atoms.
#[derive(Debug, PartialEq, Eq)]
pub struct Atom {
    /// Where the atom starts in the file.
    pub offset: u64,
    /// How long the atom is, its header included.
    pub length: u64,
    /// The four characters of its name.
    pub name: String,
    /// The atoms inside it, in their order.
    pub children: Vec<Atom>,
}

/// An `Atom` as a mathematical value.
pub struct AtomModel {
    pub offset: u64,
    pub length: u64,
    pub name: Seq<char>,
    pub children: Seq<AtomModel>,
}

impl View for Atom {
    type V = AtomModel;

    open spec fn view(&self) -> AtomModel
        decreases self,
    {
        AtomModel {
            offset: self.offset,
            length: self.length,
            name: self.name@,
            children: atoms_view(self.children@),
        }
    }
}

/// The views of a list of atoms.
pub open spec fn atoms_view(atoms: Seq<Atom>) -> Seq<AtomModel>
    decreases atoms,
{
    if atoms.len() == 0 {
        Seq::empty()
    } else {
        atoms_view(atoms.drop_last()).push(atoms.last()@)
    }
}

/// `atoms_view` goes atom by atom.
pub proof fn lemma_atoms_view(atoms: Seq<Atom>)
    ensures
        atoms_view(atoms).len() == atoms.len(),
        forall|i: int| 0 <= i < atoms.len() ==> (#[trigger] atoms_view(atoms)[i]) == atoms[i]@,
    decreases atoms.len(),
{
    if atoms.len() > 0 {
        lemma_atoms_view(atoms.drop_last());
        assert(atoms_view(atoms) == atoms_view(atoms.drop_last()).push(atoms.last()@));
    }
}

/// Whether atoms of this name hold further atoms.
pub open spec fn is_container(name: Seq<char>) -> bool {
    name == "moov"@ || name == "udta"@ || name == "mdia"@ || name == "meta"@ || name == "ilst"@
        || name == "stbl"@ || name == "minf"@ || name == "moof"@ || name == "traf"@ || name
        == "trak"@ || name == "stsd"@
}

/// How many bytes stand between the header of an atom and the first atom
/// inside it: four in `meta`, eight in `stsd`, none elsewhere.
pub open spec fn header_padding(name: Seq<char>) -> int {
    if name == "meta"@ {
        4
    } else if name == "stsd"@ {
        8
    } else {
        0
    }
}

/// The length of the atom at `pos`, and the length of its header.
///
/// An atom opens with its length in four bytes and its name in four more.
/// The length 1 means that the true length follows the name, in eight bytes;
/// the header is then sixteen bytes long. A length that does not cover the
/// header is malformed.
pub open spec fn atom_extent(data: Seq<u8>, pos: int) -> Result<(int, int), Error> {
    if pos < 0 || pos + 8 > data.len() {
        Err(Error::Truncated)
    } else if be32(data.subrange(pos, pos + 4)) == 1 {
        if pos + 16 > data.len() {
            Err(Error::Truncated)
        } else if be64(data.subrange(pos + 8, pos + 16)) < 16 {
            Err(Error::Malformed)
        } else {
            Ok((be64(data.subrange(pos + 8, pos + 16)), 16))
        }
    } else if be32(data.subrange(pos, pos + 4)) < 8 {
        Err(Error::Malformed)
    } else {
        Ok((be32(data.subrange(pos, pos + 4)), 8))
    }
}

/// How far `pos` is from the end of the data.
pub open spec fn remaining(data: Seq<u8>, pos: int) -> int {
    if pos < data.len() {
        data.len() - pos
    } else {
        0
    }
}

/// The atom that starts at `pos`, with all that is inside it. The atom may
/// not reach past `limit`: one that does is malformed.
pub open spec fn atom_at(data: Seq<u8>, pos: int, limit: int) -> Result<AtomModel, Error>
    decreases remaining(data, pos), 0int,
{
    match atom_extent(data, pos) {
        Err(e) => Err(e),
        Ok((length, header)) => {
            let name = latin1(data.subrange(pos + 4, pos + 8));
            if pos + length > limit {
                Err(Error::Malformed)
            } else {
                Ok(
                    AtomModel {
                        offset: pos as u64,
                        length: length as u64,
                        name,
                        children: if is_container(name) {
                            atoms_from(data, pos + header + header_padding(name), pos + length)
                        } else {
                            Seq::empty()
                        },
                    },
                )
            }
        },
    }
}

/// The atoms that stand one behind the other from `pos` on and end at or
/// before `end`. The list ends where `end` is reached and where no further
/// atom can be read.
pub open spec fn atoms_from(data: Seq<u8>, pos: int, end: int) -> Seq<AtomModel>
    decreases remaining(data, pos), 1int,
{
    if pos >= end {
        Seq::empty()
    } else {
        match atom_extent(data, pos) {
            Err(_) => Seq::empty(),
            Ok((length, _)) => match atom_at(data, pos, end) {
                Err(_) => Seq::empty(),
                Ok(atom) => seq![atom] + atoms_from(data, pos + length, end),
            },
        }
    }
}

/// The atoms of a file, from its first byte on.
pub open spec fn file_atoms(data: Seq<u8>) -> Seq<AtomModel> {
    atoms_from(data, 0, u64::MAX as int)
}

/// A result with its atom replaced by the atom's view.
pub open spec fn atom_view(r: Result<Atom, Error>) -> Result<AtomModel, Error> {
    match r {
        Ok(atom) => Ok(atom@),
        Err(e) => Err(e),
    }
}

/// Whether atoms of the name `name` hold further atoms.
pub fn is_container_name(name: &str) -> (yes: bool)
    ensures
        yes == is_container(name@),
{
    str_eq(name, "moov") || str_eq(name, "udta") || str_eq(name, "mdia") || str_eq(name, "meta")
        || str_eq(name, "ilst") || str_eq(name, "stbl") || str_eq(name, "minf") || str_eq(
        name,
        "moof",
    ) || str_eq(name, "traf") || str_eq(name, "trak") || str_eq(name, "stsd")
}

/// Reads the atom that starts at `pos` in `data`, the bytes of a file, with
/// the atoms inside it. An atom that reaches past `limit` is refused.
pub fn read_atom(data: &[u8], pos: u64, limit: u64) -> (r: Result<Atom, Error>)
    ensures
        atom_view(r) == atom_at(data@, pos as int, limit as int),
        r matches Ok(atom) ==> well_formed(atom@) && atom.offset == pos && atom.offset + atom.length
            <= limit,
    decreases remaining(data@, pos as int),
{
    proof {
        lemma_atom_at(data@, pos as int, limit as int);
    }
    let total = data.len() as u64;
    if total < 8 || pos > total - 8 {
        return Err(Error::Truncated);
    }
    let at = pos as usize;
    let short = read_u32(&data[at..at + 4]);
    let length: u64;
    let header: u64;
    if short == 1 {
        if total < 16 || pos > total - 16 {
            return Err(Error::Truncated);
        }
        length = read_u64(&data[at + 8..at + 16]);
        header = 16;
        if length < 16 {
            return Err(Error::Malformed);
        }
    } else {
        length = short as u64;
        header = 8;
        if length < 8 {
            return Err(Error::Malformed);
        }
    }
    if length > limit || pos > limit - length {
        return Err(Error::Malformed);
    }
    let end = pos + length;
    let name = latin1_string(&data[at + 4..at + 8]);
    let mut children: Vec<Atom> = Vec::new();
    if is_container_name(name.as_str()) {
        let padding: u64 = if str_eq(name.as_str(), "meta") {
            4
        } else if str_eq(name.as_str(), "stsd") {
            8
        } else {
            0
        };
        let ghost start = pos + header + padding;
        let ghost mut done: Seq<AtomModel> = Seq::empty();
        if length > header + padding {
            let mut cursor = pos + header + padding;
            while cursor < end
                invariant_except_break
                    atoms_from(data@, start, end as int) == done + atoms_from(
                        data@,
                        cursor as int,
                        end as int,
                    ),
                invariant
                    pos + 8 <= cursor <= end,
                    pos + 8 <= data@.len(),
                    atoms_view(children@) == done,
                ensures
                    atoms_from(data@, start, end as int) == done,
                    atoms_view(children@) == done,
                decreases remaining(data@, cursor as int),
            {
                match read_atom(data, cursor, end) {
                    Err(_) => {
                        break ;
                    },
                    Ok(atom) => {
                        let ghost model = atom@;
                        assert(children@.push(atom).drop_last() =~= children@);
                        cursor = cursor + atom.length;
                        proof {
                            done = done.push(model);
                        }
                        children.push(atom);
                    },
                }
            }
        }
    }
    Ok(Atom { offset: pos, length, name, children })
}

/// Reads the atoms of a file, one behind the other from its first byte on,
/// until none can be read.
pub fn read_atoms(data: &[u8]) -> (atoms: Vec<Atom>)
    ensures
        atoms_view(atoms@) == file_atoms(data@),
        well_formed_row(atoms_view(atoms@), 0, u64::MAX as int),
{
    proof {
        lemma_atoms_from(data@, 0, u64::MAX as int);
    }
    let mut atoms: Vec<Atom> = Vec::new();
    let mut pos: u64 = 0;
    let ghost mut done: Seq<AtomModel> = Seq::empty();
    loop
        invariant_except_break
            file_atoms(data@) == done + atoms_from(data@, pos as int, u64::MAX as int),
        invariant
            atoms_view(atoms@) == done,
        ensures
            file_atoms(data@) == done,
            atoms_view(atoms@) == done,
        decreases remaining(data@, pos as int),
    {
        if pos == u64::MAX {
            break ;
        }
        match read_atom(data, pos, u64::MAX) {
            Err(_) => {
                break ;
            },
            Ok(atom) => {
                let ghost model = atom@;
                assert(atoms@.push(atom).drop_last() =~= atoms@);
                pos = pos + atom.length;
                proof {
                    done = done.push(model);
                }
                atoms.push(atom);
            },
        }
    }
    atoms
}

/// Whether an atom is sound: it covers its own header; it holds atoms only
/// if its name is that of a container; and the atoms it holds are sound,
/// start behind its header, follow one another without overlap and end
/// within it.
pub open spec fn well_formed(atom: AtomModel) -> bool
    decreases atom,
{
    &&& atom.length >= 8
    &&& atom.offset + atom.length <= u64::MAX
    &&& atom.children.len() > 0 ==> is_container(atom.name)
    &&& well_formed_row(atom.children, atom.offset + 8, atom.offset + atom.length)
}

/// Whether the atoms of a row are sound, start at or behind `start`, follow
/// one another without overlap and end at or before `end`.
pub open spec fn well_formed_row(atoms: Seq<AtomModel>, start: int, end: int) -> bool
    decreases atoms,
{
    if atoms.len() == 0 {
        true
    } else {
        &&& well_formed(atoms.last())
        &&& atoms.last().offset + atoms.last().length <= end
        &&& start <= atoms.last().offset
        &&& well_formed_row(atoms.drop_last(), start, atoms.last().offset as int)
    }
}

/// A sound row is sound between any bounds that are no narrower.
pub proof fn lemma_row_widen(atoms: Seq<AtomModel>, start: int, end: int, low: int, high: int)
    requires
        well_formed_row(atoms, start, end),
        low <= start,
        end <= high,
    ensures
        well_formed_row(atoms, low, high),
    decreases atoms.len(),
{
    if atoms.len() > 0 {
        lemma_row_widen(
            atoms.drop_last(),
            start,
            atoms.last().offset as int,
            low,
            atoms.last().offset as int,
        );
    }
}

/// A sound row stays sound with a sound atom put in front of it that ends
/// where the row may start.
proof fn lemma_row_prepend(first: AtomModel, rest: Seq<AtomModel>, start: int, end: int)
    requires
        well_formed(first),
        start <= first.offset,
        first.offset + first.length <= end,
        well_formed_row(rest, first.offset + first.length, end),
    ensures
        well_formed_row(seq![first] + rest, start, end),
    decreases rest.len(),
{
    let row = seq![first] + rest;
    if rest.len() == 0 {
        assert(well_formed_row(row.drop_last(), start, first.offset as int));
    } else {
        assert(row.drop_last() =~= seq![first] + rest.drop_last());
        lemma_row_prepend(first, rest.drop_last(), start, rest.last().offset as int);
    }
}

/// Every atom that is read is sound, it starts where it was read, and its
/// length is the length that its header spells.
pub proof fn lemma_atom_at(data: Seq<u8>, pos: int, limit: int)
    requires
        limit <= u64::MAX,
    ensures
        atom_at(data, pos, limit) matches Ok(atom) ==> {
            &&& well_formed(atom)
            &&& atom.offset == pos
            &&& atom_extent(data, pos) matches Ok((length, _)) && atom.length == length
            &&& pos + atom.length <= limit
        },
    decreases remaining(data, pos), 0int,
{
    if let Ok((length, header)) = atom_extent(data, pos) {
        let name = latin1(data.subrange(pos + 4, pos + 8));
        if pos + length <= limit {
            let atom = atom_at(data, pos, limit)->Ok_0;
            if is_container(name) {
                let from = pos + header + header_padding(name);
                lemma_atoms_from(data, from, pos + length);
                lemma_row_widen(atom.children, from, pos + length, pos + 8, pos + length);
            }
        }
    }
}

/// Every row of atoms that is read is sound: its atoms start at or behind
/// the place the row was read from, and end at or before the end given.
pub proof fn lemma_atoms_from(data: Seq<u8>, pos: int, end: int)
    requires
        end <= u64::MAX,
    ensures
        well_formed_row(atoms_from(data, pos, end), pos, end),
    decreases remaining(data, pos), 1int,
{
    if pos < end {
        if let Ok((length, _)) = atom_extent(data, pos) {
            lemma_atom_at(data, pos, end);
            if let Ok(atom) = atom_at(data, pos, end) {
                lemma_atoms_from(data, pos + length, end);
                lemma_row_prepend(atom, atoms_from(data, pos + length, end), pos, end);
            }
        }
    }
}

/// The first atom of the list that has the given name.
pub open spec fn first_named(atoms: Seq<AtomModel>, name: Seq<char>) -> Option<AtomModel>
    decreases atoms.len(),
{
    if atoms.len() == 0 {
        None
    } else if atoms[0].name == name {
        Some(atoms[0])
    } else {
        first_named(atoms.drop_first(), name)
    }
}

/// Finds the first atom of the list that has the given name.
pub fn find_atom<'a>(atoms: &'a Vec<Atom>, name: &str) -> (found: Option<&'a Atom>)
    ensures
        match found {
            Some(atom) => first_named(atoms_view(atoms@), name@) == Some(atom@),
            None => first_named(atoms_view(atoms@), name@) is None,
        },
{
    let ghost all = atoms_view(atoms@);
    let mut i: usize = 0;
    proof {
        lemma_atoms_view(atoms@);
        assert(all.skip(0) =~= all);
    }
    while i < atoms.len()
        invariant
            i <= atoms@.len(),
            all == atoms_view(atoms@),
            all.len() == atoms@.len(),
            forall|k: int| 0 <= k < atoms@.len() ==> (#[trigger] all[k]) == atoms@[k]@,
            first_named(all, name@) == first_named(all.skip(i as int), name@),
        decreases atoms@.len() - i,
    {
        assert(all.skip(i as int).drop_first() =~= all.skip(i + 1));
        if str_eq(atoms[i].name.as_str(), name) {
            return Some(&atoms[i]);
        }
        i += 1;
    }
    None
}

/// The bytes of an atom behind its eight-byte header. An atom that is
/// shorter than its header is malformed; one that reaches past the end of
/// the file is cut short.
pub open spec fn payload_of(data: Seq<u8>, atom: AtomModel) -> Result<Seq<u8>, Error> {
    if atom.length < 8 {
        Err(Error::Malformed)
    } else if atom.offset + atom.length > data.len() {
        Err(Error::Truncated)
    } else {
        Ok(data.subrange(atom.offset + 8, atom.offset + atom.length))
    }
}

/// The bytes of an atom behind its eight-byte header.
pub fn payload<'a>(data: &'a [u8], atom: &Atom) -> (r: Result<&'a [u8], Error>)
    ensures
        match r {
            Ok(bytes) => payload_of(data@, atom@) == Ok::<Seq<u8>, Error>(bytes@),
            Err(e) => payload_of(data@, atom@) == Err::<Seq<u8>, Error>(e),
        },
{
    if atom.length < 8 {
        return Err(Error::Malformed);
    }
    let total = data.len() as u64;
    if atom.length > total || atom.offset > total - atom.length {
        return Err(Error::Truncated);
    }
    let start = atom.offset as usize + 8;
    let end = (atom.offset + atom.length) as usize;
    Ok(&data[start..end])
}

} // verus!
