//! How bytes are read as bits: most significant bit first.

use vstd::prelude::*;

verus! {

/// Bit `i` of a byte, counted from the most significant one (`i < 8`).
pub open spec fn bit_of_byte(byte: u8, i: u8) -> bool {
    (byte >> ((7u8 - i) as u8)) & 1u8 == 1u8
}

/// The first `count` bits of a byte, most significant first.
pub open spec fn leading_bits(byte: u8, count: nat) -> Seq<bool> {
    Seq::new(count, |i: int| bit_of_byte(byte, i as u8))
}

/// The bits of a byte sequence: eight per byte, each byte most significant bit first.
pub open spec fn bits_of_bytes(bytes: Seq<u8>) -> Seq<bool> {
    Seq::new(8 * bytes.len(), |i: int| bit_of_byte(bytes[i / 8], (i % 8) as u8))
}

/// The byte whose bits, most significant first, are `bits[start..start + 8]`.
pub open spec fn byte_of_bits(bits: Seq<bool>, start: int) -> u8 {
    (if bits[start] { 0x80u8 } else { 0u8 })
    | (if bits[start + 1] { 0x40u8 } else { 0u8 })
    | (if bits[start + 2] { 0x20u8 } else { 0u8 })
    | (if bits[start + 3] { 0x10u8 } else { 0u8 })
    | (if bits[start + 4] { 0x08u8 } else { 0u8 })
    | (if bits[start + 5] { 0x04u8 } else { 0u8 })
    | (if bits[start + 6] { 0x02u8 } else { 0u8 })
    | (if bits[start + 7] { 0x01u8 } else { 0u8 })
}

/// Bits regrouped into bytes, eight at a time, most significant bit first. Bits after the last
/// full group of eight are left out.
pub open spec fn bytes_of_bits(bits: Seq<bool>) -> Seq<u8> {
    Seq::new(bits.len() / 8, |k: int| byte_of_bits(bits, 8 * k))
}

/// `count` copies of one bit.
pub open spec fn repeated(bit: bool, count: nat) -> Seq<bool> {
    Seq::new(count, |i: int| bit)
}

/// `bits` followed by `count` copies of `bit`, appended one at a time.
pub open spec fn push_times(bits: Seq<bool>, bit: bool, count: nat) -> Seq<bool>
    decreases count,
{
    if count == 0 {
        bits
    } else {
        push_times(bits, bit, (count - 1) as nat).push(bit)
    }
}

/// A byte is put together again from its eight bits.
pub proof fn lemma_byte_from_its_bits(byte: u8)
    by (bit_vector)
    ensures
        byte == (if (byte >> 7u8) & 1u8 == 1u8 { 0x80u8 } else { 0u8 })
            | (if (byte >> 6u8) & 1u8 == 1u8 { 0x40u8 } else { 0u8 })
            | (if (byte >> 5u8) & 1u8 == 1u8 { 0x20u8 } else { 0u8 })
            | (if (byte >> 4u8) & 1u8 == 1u8 { 0x10u8 } else { 0u8 })
            | (if (byte >> 3u8) & 1u8 == 1u8 { 0x08u8 } else { 0u8 })
            | (if (byte >> 2u8) & 1u8 == 1u8 { 0x04u8 } else { 0u8 })
            | (if (byte >> 1u8) & 1u8 == 1u8 { 0x02u8 } else { 0u8 })
            | (if (byte >> 0u8) & 1u8 == 1u8 { 0x01u8 } else { 0u8 }),
{
}

/// Regrouping the bits of a byte sequence gives the bytes back: a sequence of `n` bytes has
/// `8 * n` bits, and those bits, taken eight at a time, are the bytes again.
pub proof fn lemma_bytes_round_trip(bytes: Seq<u8>)
    ensures
        bits_of_bytes(bytes).len() == 8 * bytes.len(),
        bytes_of_bits(bits_of_bytes(bytes)) == bytes,
{
    let bits = bits_of_bytes(bytes);
    assert forall|k: int| 0 <= k < bytes.len() implies byte_of_bits(bits, 8 * k) == bytes[k] by {
        let b = bytes[k];
        lemma_byte_from_its_bits(b);
        assert(bits[8 * k] == bit_of_byte(b, 0));
        assert(bits[8 * k + 1] == bit_of_byte(b, 1));
        assert(bits[8 * k + 2] == bit_of_byte(b, 2));
        assert(bits[8 * k + 3] == bit_of_byte(b, 3));
        assert(bits[8 * k + 4] == bit_of_byte(b, 4));
        assert(bits[8 * k + 5] == bit_of_byte(b, 5));
        assert(bits[8 * k + 6] == bit_of_byte(b, 6));
        assert(bits[8 * k + 7] == bit_of_byte(b, 7));
    }
    assert(bytes_of_bits(bits) =~= bytes);
}

/// The bits of a byte sequence with one more byte are the old bits followed by the eight bits
/// of that byte.
pub proof fn lemma_bits_of_push(bytes: Seq<u8>, byte: u8)
    ensures
        bits_of_bytes(bytes.push(byte)) == bits_of_bytes(bytes) + leading_bits(byte, 8),
{
    assert(bits_of_bytes(bytes.push(byte)) =~= bits_of_bytes(bytes) + leading_bits(byte, 8));
}

/// The bits of two byte sequences, one after the other, are the bits of their concatenation.
pub proof fn lemma_bits_of_concat(a: Seq<u8>, b: Seq<u8>)
    ensures
        bits_of_bytes(a + b) == bits_of_bytes(a) + bits_of_bytes(b),
{
    assert(bits_of_bytes(a + b) =~= bits_of_bytes(a) + bits_of_bytes(b));
}

/// Appending one bit `count` times gives the same bits as appending `count` copies at once.
pub proof fn lemma_push_times(bits: Seq<bool>, bit: bool, count: nat)
    ensures
        push_times(bits, bit, count) == bits + repeated(bit, count),
    decreases count,
{
    if count > 0 {
        lemma_push_times(bits, bit, (count - 1) as nat);
        assert((bits + repeated(bit, (count - 1) as nat)).push(bit) =~= bits + repeated(
            bit,
            count,
        ));
    } else {
        assert(bits =~= bits + repeated(bit, 0));
    }
}

/// Setting the next free bit of a partial byte: the bits before it stay, the new one is `1`,
/// and what follows is still clear.
pub proof fn lemma_set_next_bit(byte: u8, idx: u8)
    by (bit_vector)
    requires
        idx < 8,
        byte & (0xffu8 >> idx) == 0,
    ensures
        bit_of_byte(byte | (1u8 << ((7u8 - idx) as u8)), idx),
        forall|i: u8|
            i < idx ==> #[trigger] bit_of_byte(byte | (1u8 << ((7u8 - idx) as u8)), i)
                == bit_of_byte(byte, i),
        idx < 7 ==> (byte | (1u8 << ((7u8 - idx) as u8))) & (0xffu8 >> ((idx + 1u8) as u8)) == 0,
{
}

/// In a partial byte every bit from the first free one on is clear.
pub proof fn lemma_free_bits_clear(byte: u8, idx: u8)
    by (bit_vector)
    requires
        idx < 8,
        byte & (0xffu8 >> idx) == 0,
    ensures
        forall|i: u8| idx <= i < 8 ==> !#[trigger] bit_of_byte(byte, i),
        idx < 7 ==> byte & (0xffu8 >> ((idx + 1u8) as u8)) == 0,
{
}

/// Filling the rest of a partial byte with ones: the bits before `idx` stay and all from `idx`
/// on are `1`.
pub proof fn lemma_fill_ones(byte: u8, idx: u8)
    by (bit_vector)
    requires
        idx < 8,
        byte & (0xffu8 >> idx) == 0,
    ensures
        forall|i: u8|
            i < idx ==> #[trigger] bit_of_byte(byte | (0xffu8 >> idx), i) == bit_of_byte(byte, i),
        forall|i: u8| idx <= i < 8 ==> #[trigger] bit_of_byte(byte | (0xffu8 >> idx), i),
{
}

} // verus!
