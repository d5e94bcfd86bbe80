//! Text out of fixed-width fields.

use vstd::prelude::*;
use crate::formats::text::{latin1, latin1_string};

verus! {

/// Whether Unicode counts `c` as a letter or a number, as
/// `char::is_alphanumeric` decides it.
pub uninterp spec fn is_alphanumeric(c: char) -> bool;

/// `char::is_alphanumeric` of the standard library. The contract gives its
/// answer a name and says nothing of which characters it holds for.
#[verifier::external_body]
fn char_is_alphanumeric(c: char) -> (yes: bool)
    ensures
        yes == is_alphanumeric(c),
{
    c.is_alphanumeric()
}

/// How much of a field is text, where each mark says whether the byte at
/// its place is part of a word: everything up to and including the last
/// marked byte, and nothing at all where no byte is marked.
pub open spec fn kept(marks: Seq<bool>) -> int
    decreases marks.len(),
{
    if marks.len() == 0 {
        0
    } else if marks.last() {
        marks.len() as int
    } else {
        kept(marks.drop_last())
    }
}

/// What `kept` finds: the mark before it is set, and none at or after it is.
pub proof fn lemma_kept(marks: Seq<bool>)
    ensures
        0 <= kept(marks) <= marks.len(),
        kept(marks) > 0 ==> marks[kept(marks) - 1],
        forall|i: int| kept(marks) <= i < marks.len() ==> !marks[i],
    decreases marks.len(),
{
    if marks.len() > 0 && !marks.last() {
        let front = marks.drop_last();
        lemma_kept(front);
        assert forall|i: int| kept(marks) <= i < marks.len() implies !marks[i] by {
            if i < front.len() {
                assert(front[i] == marks[i]);
            }
        }
    }
}

/// Counts the bytes of a field that are text, from the marks of its bytes.
pub fn kept_length(marks: &[bool]) -> (n: usize)
    ensures
        n == kept(marks@),
{
    let mut i: usize = marks.len();
    assert(marks@.take(i as int) =~= marks@);
    while i > 0
        invariant
            i <= marks.len(),
            kept(marks@) == kept(marks@.take(i as int)),
        decreases i,
    {
        if marks[i - 1] {
            return i;
        }
        assert(marks@.take(i as int).drop_last() =~= marks@.take(i - 1));
        i -= 1;
    }
    0
}

/// For each byte, whether it is alphanumeric when read as Latin-1.
pub open spec fn word_marks(bytes: Seq<u8>) -> Seq<bool> {
    Seq::new(bytes.len(), |i: int| is_alphanumeric(bytes[i] as char))
}

/// How many bytes of a field are text: everything up to and including the
/// last alphanumeric byte. A field without any alphanumeric byte holds no
/// text.
pub open spec fn trimmed_len(bytes: Seq<u8>) -> int {
    kept(word_marks(bytes))
}

/// The text of a field: its Latin-1 reading without the trailing padding.
pub open spec fn ascii_text(bytes: Seq<u8>) -> Seq<char> {
    latin1(bytes.take(trimmed_len(bytes)))
}

/// Counts the bytes of `buf` that `from_ascii` keeps.
pub fn trimmed_length(buf: &[u8]) -> (n: usize)
    ensures
        n == trimmed_len(buf@),
        n <= buf@.len(),
{
    let mut marks: Vec<bool> = Vec::new();
    let mut i: usize = 0;
    while i < buf.len()
        invariant
            i <= buf.len(),
            marks@.len() == i,
            forall|k: int| 0 <= k < i ==> marks@[k] == is_alphanumeric(buf@[k] as char),
        decreases buf.len() - i,
    {
        marks.push(char_is_alphanumeric(buf[i] as char));
        i += 1;
    }
    assert(marks@ =~= word_marks(buf@));
    proof {
        lemma_kept(marks@);
    }
    kept_length(marks.as_slice())
}

/// Reads a fixed-width Latin-1 field as text and drops its trailing padding:
/// whatever follows the last alphanumeric character.
pub fn from_ascii(buf: &[u8]) -> (s: String)
    ensures
        s@ == ascii_text(buf@),
{
    let n = trimmed_length(buf);
    latin1_string(&buf[0..n])
}

} // verus!
