//! Building and comparing strings.

use vstd::prelude::*;
use vstd::utf8::*;
use vstd::string::*;

verus! {

/// Whether two string slices hold the same characters.
pub fn str_eq(a: &str, b: &str) -> (same: bool)
    ensures
        same == (a@ == b@),
{
    let x = a.as_bytes();
    let y = b.as_bytes();
    proof {
        encode_utf8_decode_utf8(a@);
        encode_utf8_decode_utf8(b@);
    }
    if x.len() != y.len() {
        return false;
    }
    let mut i: usize = 0;
    while i < x.len()
        invariant
            i <= x.len(),
            x.len() == y.len(),
            x@ == encode_utf8(a@),
            y@ == encode_utf8(b@),
            forall|k: int| 0 <= k < i ==> x@[k] == y@[k],
        decreases x.len() - i,
    {
        if x[i] != y[i] {
            return false;
        }
        i += 1;
    }
    assert(x@ =~= y@);
    true
}

/// The characters that a sequence of Latin-1 bytes stands for: each byte is
/// the code point of its character.
pub open spec fn latin1(bytes: Seq<u8>) -> Seq<char> {
    Seq::new(bytes.len(), |i: int| bytes[i] as char)
}

/// `String::push` of the standard library: the string with the character
/// put at its end.
#[verifier::external_body]
fn push_char(s: &mut String, c: char)
    ensures
        final(s)@ == old(s)@.push(c),
{
    s.push(c)
}

/// The string whose characters are the Latin-1 reading of `bytes`.
pub fn latin1_string(bytes: &[u8]) -> (s: String)
    ensures
        s@ == latin1(bytes@),
{
    let mut s = String::new();
    let mut i: usize = 0;
    while i < bytes.len()
        invariant
            i <= bytes.len(),
            s@ == latin1(bytes@.take(i as int)),
        decreases bytes.len() - i,
    {
        push_char(&mut s, bytes[i] as char);
        i += 1;
    }
    s
}

/// `core::str::from_utf8` of the standard library: the bytes as a string
/// slice where they are well-formed UTF-8, and nothing where they are not.
#[verifier::external_body]
fn str_from_utf8(bytes: &[u8]) -> (r: Option<&str>)
    ensures
        r is Some <==> valid_utf8(bytes@),
        r matches Some(s) ==> s@ == decode_utf8(bytes@),
{
    core::str::from_utf8(bytes).ok()
}

/// The string that `bytes` encode in UTF-8, where they encode one.
pub fn utf8_string(bytes: &[u8]) -> (r: Option<String>)
    ensures
        r is Some <==> valid_utf8(bytes@),
        r matches Some(s) ==> s@ == decode_utf8(bytes@),
{
    match str_from_utf8(bytes) {
        Some(s) => Some(s.to_owned()),
        None => None,
    }
}

/// Whether a UTF-16 code unit is the first half of a surrogate pair.
pub open spec fn is_high_surrogate(unit: u16) -> bool {
    0xD800 <= unit <= 0xDBFF
}

/// Whether a UTF-16 code unit is the second half of a surrogate pair.
pub open spec fn is_low_surrogate(unit: u16) -> bool {
    0xDC00 <= unit <= 0xDFFF
}

/// The character that a surrogate pair stands for.
pub open spec fn paired(high: u16, low: u16) -> char {
    (0x10000 + (high - 0xD800) * 0x400 + (low - 0xDC00)) as char
}

/// The text that a sequence of UTF-16 code units encodes. A unit that is no
/// surrogate is the code point of its character; a high surrogate and the
/// low surrogate behind it stand for one character together. There is no
/// text where a surrogate stands without its partner.
pub open spec fn utf16_text(units: Seq<u16>) -> Option<Seq<char>>
    decreases units.len(),
{
    if units.len() == 0 {
        Some(Seq::empty())
    } else if !is_high_surrogate(units[0]) && !is_low_surrogate(units[0]) {
        match utf16_text(units.skip(1)) {
            Some(rest) => Some(seq![units[0] as char] + rest),
            None => None,
        }
    } else if is_high_surrogate(units[0]) && units.len() >= 2 && is_low_surrogate(units[1]) {
        match utf16_text(units.skip(2)) {
            Some(rest) => Some(seq![paired(units[0], units[1])] + rest),
            None => None,
        }
    } else {
        None
    }
}

/// Units of which none is a surrogate encode one character each.
pub proof fn lemma_utf16_without_surrogates(units: Seq<u16>)
    requires
        forall|i: int|
            0 <= i < units.len() ==> !is_high_surrogate(#[trigger] units[i]) && !is_low_surrogate(
                units[i],
            ),
    ensures
        utf16_text(units) == Some(Seq::new(units.len(), |i: int| units[i] as char)),
    decreases units.len(),
{
    if units.len() > 0 {
        let rest = units.skip(1);
        assert forall|i: int| 0 <= i < rest.len() implies !is_high_surrogate(#[trigger] rest[i])
            && !is_low_surrogate(rest[i]) by {
            assert(rest[i] == units[i + 1]);
        }
        lemma_utf16_without_surrogates(rest);
        assert(seq![units[0] as char] + Seq::new(rest.len(), |i: int| rest[i] as char) =~= Seq::new(
            units.len(),
            |i: int| units[i] as char,
        ));
    } else {
        assert(Seq::new(units.len(), |i: int| units[i] as char) =~= Seq::<char>::empty());
    }
}

/// `String::from_utf16` of the standard library, which decodes UTF-16: the
/// text that the code units encode, or nothing where it reports that they
/// are not well-formed.
#[verifier::external_body]
pub(crate) fn string_from_utf16(units: &[u16]) -> (r: Option<String>)
    ensures
        match r {
            Some(s) => utf16_text(units@) == Some(s@),
            None => utf16_text(units@) is None,
        },
{
    String::from_utf16(units).ok()
}

} // verus!
