//! The two ID3v2 devices that keep tag data from looking like an MPEG frame
//! header: sizes written seven bits to the byte, and the byte stuffing called
//! unsynchronisation.

use vstd::prelude::*;
use crate::formats::bytes::{be32, read_u32};

verus! {

/// The number spelt by `bytes` when each byte carries seven bits, most
/// significant byte first.
pub open spec fn seven_bit_value(bytes: Seq<u8>) -> int
    decreases bytes.len(),
{
    if bytes.len() == 0 {
        0
    } else {
        seven_bit_value(bytes.drop_last()) * 128 + bytes.last()
    }
}

/// Whether every byte leaves its high bit clear.
pub open spec fn is_synchsafe(bytes: Seq<u8>) -> bool {
    forall|i: int| 0 <= i < bytes.len() ==> bytes[i] < 128
}

/// Four synch-safe bytes spell a number below 2^28.
pub proof fn lemma_seven_bit_value_bound(bytes: Seq<u8>)
    requires
        bytes.len() == 4,
        is_synchsafe(bytes),
    ensures
        0 <= seven_bit_value(bytes) < 0x1000_0000,
        seven_bit_value(bytes) == ((bytes[0] * 128 + bytes[1]) * 128 + bytes[2]) * 128 + bytes[3],
{
    reveal_with_fuel(seven_bit_value, 5);
    assert(bytes.drop_last().drop_last().drop_last().drop_last().len() == 0);
}

/// The first four bytes of `bytes`, with zeros behind them where there are
/// fewer.
pub open spec fn first_four(bytes: Seq<u8>) -> Seq<u8> {
    Seq::new(
        4,
        |i: int|
            if i < bytes.len() {
                bytes[i]
            } else {
                0u8
            },
    )
}

/// The size that a size field holds. At most its first four bytes count.
/// Where they are synch-safe they are read seven bits to the byte; where one
/// of them has its high bit set, the writer ignored the rule and they are read
/// as a plain big-endian number.
pub open spec fn size_value(buf: Seq<u8>) -> int {
    let head = buf.take(
        if buf.len() < 4 {
            buf.len() as int
        } else {
            4
        },
    );
    if is_synchsafe(head) {
        seven_bit_value(head)
    } else {
        be32(first_four(buf))
    }
}

/// A four-byte size field with every high bit clear holds the sum of its
/// seven-bit groups, each shifted to its place; with any high bit set it holds
/// the big-endian reading of the same four bytes.
pub proof fn lemma_size_of_four_bytes(b0: u8, b1: u8, b2: u8, b3: u8)
    ensures
        b0 < 128 && b1 < 128 && b2 < 128 && b3 < 128 ==> size_value(seq![b0, b1, b2, b3]) == (((b0
            & 0x7f) as u32) << 21) + (((b1 & 0x7f) as u32) << 14) + (((b2 & 0x7f) as u32) << 7) + ((
        b3 & 0x7f) as u32),
        b0 >= 128 || b1 >= 128 || b2 >= 128 || b3 >= 128 ==> size_value(seq![b0, b1, b2, b3])
            == b0 * 0x100_0000 + b1 * 0x1_0000 + b2 * 0x100 + b3,
{
    let s = seq![b0, b1, b2, b3];
    assert(s.take(4) =~= s);
    if b0 < 128 && b1 < 128 && b2 < 128 && b3 < 128 {
        reveal_with_fuel(seven_bit_value, 5);
        assert(((b0 & 0x7f) as u32) << 21 == b0 * 0x20_0000) by (bit_vector)
            requires
                b0 < 128,
        ;
        assert(((b1 & 0x7f) as u32) << 14 == b1 * 0x4000) by (bit_vector)
            requires
                b1 < 128,
        ;
        assert(((b2 & 0x7f) as u32) << 7 == b2 * 0x80) by (bit_vector)
            requires
                b2 < 128,
        ;
        assert((b3 & 0x7f) as u32 == b3) by (bit_vector)
            requires
                b3 < 128,
        ;
    }
}

/// Reads the size in a size field: seven bits to the byte where the field is
/// synch-safe, as a plain big-endian number where it is not.
pub fn int_from_buf(buf: &[u8]) -> (v: u32)
    ensures
        v == size_value(buf@),
{
    let n: usize = if buf.len() < 4 {
        buf.len()
    } else {
        4
    };
    let ghost head = buf@.take(n as int);
    let mut sum: u32 = 0;
    let mut i: usize = 0;
    let mut safe = true;
    while i < n
        invariant_except_break
            safe,
        invariant
            i <= n <= 4,
            n <= buf@.len(),
            head == buf@.take(n as int),
            sum == seven_bit_value(buf@.take(i as int)),
            forall|k: int| 0 <= k < i ==> buf@[k] < 128,
            i == 0 ==> sum == 0,
            i == 1 ==> sum < 0x80,
            i == 2 ==> sum < 0x4000,
            i == 3 ==> sum < 0x20_0000,
            i == 4 ==> sum < 0x1000_0000,
        ensures
            safe ==> i == n,
            !safe ==> i < n && buf@[i as int] >= 128,
        decreases n - i,
    {
        if buf[i] >= 128 {
            safe = false;
            break ;
        }
        assert(buf@.take(i + 1).drop_last() =~= buf@.take(i as int));
        sum = sum * 128 + buf[i] as u32;
        i += 1;
    }
    if safe {
        sum
    } else {
        if buf.len() >= 4 {
            assert(first_four(buf@) =~= buf@.take(4));
            read_u32(buf)
        } else {
            let mut padded: Vec<u8> = Vec::new();
            let mut k: usize = 0;
            while k < 4
                invariant
                    k <= 4,
                    padded@.len() == k,
                    forall|j: int| 0 <= j < k ==> padded@[j] == first_four(buf@)[j],
                decreases 4 - k,
            {
                padded.push(
                    if k < buf.len() {
                        buf[k]
                    } else {
                        0
                    },
                );
                k += 1;
            }
            read_u32(padded.as_slice())
        }
    }
}

/// What is left of `bytes` once unsynchronisation is undone: every zero byte
/// that directly follows a `0xFF` was stuffed in by the writer and goes; all
/// other bytes stay, in their order.
pub open spec fn unsynchronized(bytes: Seq<u8>) -> Seq<u8>
    decreases bytes.len(),
{
    if bytes.len() == 0 {
        Seq::empty()
    } else if bytes.len() >= 2 && bytes[bytes.len() - 2] == 0xFF && bytes.last() == 0 {
        unsynchronized(bytes.drop_last())
    } else {
        unsynchronized(bytes.drop_last()).push(bytes.last())
    }
}

/// Undoing unsynchronisation never adds a byte.
pub proof fn lemma_unsynchronized_len(bytes: Seq<u8>)
    ensures
        unsynchronized(bytes).len() <= bytes.len(),
    decreases bytes.len(),
{
    if bytes.len() > 0 {
        lemma_unsynchronized_len(bytes.drop_last());
    }
}

/// A buffer in which no `0xFF` is directly followed by a zero comes out as it
/// went in.
pub proof fn lemma_unsynchronized_identity(bytes: Seq<u8>)
    requires
        forall|i: int|
            0 <= i && i + 1 < bytes.len() ==> !(#[trigger] bytes[i] == 0xFF && bytes[i + 1] == 0),
    ensures
        unsynchronized(bytes) == bytes,
    decreases bytes.len(),
{
    if bytes.len() > 0 {
        let front = bytes.drop_last();
        lemma_unsynchronized_identity(front);
        if bytes.len() >= 2 {
            assert(!(bytes[bytes.len() - 2] == 0xFF && bytes[bytes.len() - 2 + 1] == 0));
        }
    }
}

/// A `0xFF` at the very end of a buffer is still at the end of what comes
/// out.
pub proof fn lemma_unsynchronized_trailing_ff(bytes: Seq<u8>)
    requires
        bytes.len() > 0,
        bytes.last() == 0xFF,
    ensures
        unsynchronized(bytes).len() > 0,
        unsynchronized(bytes).last() == 0xFF,
{
}

/// Undoes unsynchronisation: drops each zero byte that directly follows a
/// `0xFF`. A `0xFF` at the very end stays.
pub fn decode_slice(buf: &[u8]) -> (out: Vec<u8>)
    ensures
        out@ == unsynchronized(buf@),
{
    let mut out: Vec<u8> = Vec::new();
    let mut i: usize = 0;
    while i < buf.len()
        invariant
            i <= buf.len(),
            out@ == unsynchronized(buf@.take(i as int)),
        decreases buf.len() - i,
    {
        let ghost next = buf@.take(i + 1);
        assert(next.drop_last() =~= buf@.take(i as int));
        if !(i >= 1 && buf[i - 1] == 0xFF && buf[i] == 0) {
            out.push(buf[i]);
        }
        i += 1;
    }
    assert(buf@.take(i as int) =~= buf@);
    out
}

/// Undoes unsynchronisation on a whole buffer.
pub fn decode(buf: &Vec<u8>) -> (out: Vec<u8>)
    ensures
        out@ == unsynchronized(buf@),
{
    decode_slice(buf.as_slice())
}

} // verus!
