//! A buffer dedicated to bit storage.

pub mod bit_iter;
pub mod bits;

use self::bits::{
    bit_of_byte, bits_of_bytes, leading_bits, lemma_bits_of_push, lemma_fill_ones,
    lemma_free_bits_clear, lemma_set_next_bit, repeated,
};
use vstd::prelude::*;
use vstd::std_specs::convert::FromSpecImpl;

verus! {

/// A buffer dedicated to bit storage: complete bytes, then a partial byte that is filled from
/// its most significant bit down, to preserve insertion order.
#[derive(Debug)]
pub struct BitBuffer {
    full_bytes: Vec<u8>,
    partial: PartialByte,
}

/// A byte that is being filled, from its most significant bit down.
#[derive(Clone, Copy, Debug)]
struct PartialByte {
    byte: u8,
    idx: usize,
}

impl PartialByte {
    /// The byte holds fewer than 8 bits, and its free bits are clear.
    #[verifier::type_invariant]
    spec fn well_formed(self) -> bool {
        &&& self.idx < 8
        &&& self.byte & (0xffu8 >> (self.idx as u8)) == 0
    }

    /// A byte with no bit written.
    fn empty() -> (r: Self)
        ensures
            r.byte == 0,
            r.idx == 0,
    {
        assert(0u8 & (0xffu8 >> 0u8) == 0) by (bit_vector);
        PartialByte { byte: 0, idx: 0 }
    }

    /// The byte and the number of bits written to it.
    fn parts(self) -> (r: (u8, usize))
        ensures
            r.0 == self.byte,
            r.1 == self.idx,
            r.1 < 8,
            r.0 & (0xffu8 >> (r.1 as u8)) == 0,
    {
        proof {
            use_type_invariant(self);
        }
        (self.byte, self.idx)
    }

    /// A byte of which `idx` bits are written.
    fn new(byte: u8, idx: usize) -> (r: Self)
        requires
            idx < 8,
            byte & (0xffu8 >> (idx as u8)) == 0,
        ensures
            r.byte == byte,
            r.idx == idx,
    {
        PartialByte { byte, idx }
    }
}

impl BitBuffer {
    /// The complete bytes held, oldest first.
    pub closed spec fn spec_full_bytes(&self) -> Seq<u8> {
        self.full_bytes@
    }

    /// The partial byte; its bits after the first `spec_current_idx()` are clear.
    pub closed spec fn spec_current_byte(&self) -> u8 {
        self.partial.byte
    }

    /// How many bits the partial byte holds.
    pub closed spec fn spec_current_idx(&self) -> nat {
        self.partial.idx as nat
    }

    /// The bits in the buffer, in insertion order.
    pub open spec fn view(&self) -> Seq<bool> {
        bits_of_bytes(self.spec_full_bytes()) + leading_bits(
            self.spec_current_byte(),
            self.spec_current_idx(),
        )
    }

    /// Initializes an empty BitBuffer.
    pub fn new() -> (r: Self)
        ensures
            r@ == Seq::<bool>::empty(),
            r.spec_full_bytes() == Seq::<u8>::empty(),
            r.spec_current_byte() == 0,
            r.spec_current_idx() == 0,
    {
        let r = Self { full_bytes: Vec::new(), partial: PartialByte::empty() };
        assert(r@ =~= Seq::<bool>::empty());
        r
    }

    /// Inserts a single bit to the end of the buffer.
    pub fn append(&mut self, bit: bool)
        ensures
            final(self)@ == old(self)@.push(bit),
    {
        let (current_byte, idx) = self.partial.parts();
        let byte: u8 = if bit {
            current_byte | (1u8 << (7 - idx as u8))
        } else {
            current_byte
        };
        proof {
            lemma_set_next_bit(current_byte, idx as u8);
            lemma_free_bits_clear(current_byte, idx as u8);
            assert(leading_bits(byte, (idx + 1) as nat) =~= leading_bits(
                current_byte,
                idx as nat,
            ).push(bit));
        }
        if idx + 1 >= 8 {
            // The current byte is full, save it:
            self.save_current_byte(byte);
        } else {
            self.partial = PartialByte::new(byte, idx + 1);
        }
        assert(final(self)@ =~= old(self)@.push(bit));
    }

    /// Inserts a single bit to the end of the buffer multiple times. This method is more
    /// efficient than calling `append` in a loop.
    ///
    /// Note that specifying 0 repetitions is allowed, and won't change the buffer.
    pub fn append_repeated(&mut self, bit: bool, repetitions: usize)
        ensures
            final(self)@ == old(self)@ + repeated(bit, repetitions as nat),
    {
        let bit_repeated: u8 = if bit {
            u8::MAX
        } else {
            0
        };
        let mut repetitions: usize = repetitions;
        let ghost total = repetitions;
        assert(self@ =~= old(self)@ + repeated(bit, 0));

        while repetitions >= 8 - self.partial.parts().1
            invariant
                repetitions <= total,
                bit_repeated == (if bit { 0xffu8 } else { 0u8 }),
                self@ == old(self)@ + repeated(bit, (total - repetitions) as nat),
            decreases repetitions,
        {
            // Add to the current byte, then save it:
            let (current_byte, idx) = self.partial.parts();
            let byte: u8 = current_byte | (bit_repeated >> (idx as u8));
            proof {
                let old_byte = current_byte;
                if bit {
                    lemma_fill_ones(old_byte, idx as u8);
                } else {
                    lemma_free_bits_clear(old_byte, idx as u8);
                    assert(old_byte | (0u8 >> (idx as u8)) == old_byte) by (bit_vector);
                }
                assert(leading_bits(byte, 8) =~= leading_bits(old_byte, idx as nat) + repeated(
                    bit,
                    (8 - idx) as nat,
                ));
                assert(repeated(bit, (total - repetitions) as nat) + repeated(
                    bit,
                    (8 - idx) as nat,
                ) =~= repeated(bit, (total - repetitions + 8 - idx) as nat));
            }
            let ghost before = self@;
            repetitions -= 8 - idx;
            self.save_current_byte(byte);
            assert(self@ =~= before + repeated(bit, (8 - idx) as nat));
        }

        // Insert leftover bits into the current byte if needed, update the index:
        let (old_byte, idx) = self.partial.parts();
        let ghost before = self@;
        if repetitions > 0 && bit {
            let byte: u8 = old_byte | (bit_repeated >> (idx as u8)) & (u8::MAX << (8 - (idx
                + repetitions) as u8));
            proof {
                lemma_fill_partial(old_byte, idx as u8, repetitions as u8);
            }
            self.partial = PartialByte::new(byte, idx + repetitions);
        } else {
            proof {
                lemma_extend_clear(old_byte, idx as u8, repetitions as u8);
            }
            self.partial = PartialByte::new(old_byte, idx + repetitions);
        }
        assert(leading_bits(self.partial.byte, (idx + repetitions) as nat) =~= leading_bits(
            old_byte,
            idx as nat,
        ) + repeated(bit, repetitions as nat));
        assert(self@ =~= before + repeated(bit, repetitions as nat));
        assert(repeated(bit, (total - repetitions) as nat) + repeated(bit, repetitions as nat)
            =~= repeated(bit, total as nat));
    }

    /// Saves a byte that has been filled into the list of complete bytes, and starts an empty
    /// partial byte.
    fn save_current_byte(&mut self, byte: u8)
        ensures
            final(self).full_bytes@ == old(self).full_bytes@.push(byte),
            final(self).partial.byte == 0,
            final(self).partial.idx == 0,
            final(self)@ == bits_of_bytes(old(self).full_bytes@) + leading_bits(byte, 8),
    {
        self.full_bytes.push(byte);
        self.partial = PartialByte::empty();
        proof {
            lemma_bits_of_push(old(self).full_bytes@, byte);
            assert(leading_bits(0, 0) =~= Seq::<bool>::empty());
            assert(final(self)@ =~= bits_of_bytes(old(self).full_bytes@) + leading_bits(byte, 8));
        }
    }

    /// Extracts the complete bytes from the buffer and returns them, oldest first. If there
    /// aren't enough bits in the buffer to form a single byte, nothing is returned.
    /// The bytes do not remain in the buffer after calling this function; the bits of the
    /// partial byte do.
    pub fn get_complete_bytes(&mut self) -> (r: Vec<u8>)
        ensures
            r@ == old(self).spec_full_bytes(),
            r@.len() == old(self)@.len() / 8,
            bits_of_bytes(r@) == old(self)@.take(8 * r@.len() as int),
            final(self)@ == old(self)@.skip(8 * r@.len() as int),
            final(self).spec_full_bytes() == Seq::<u8>::empty(),
            final(self).spec_current_byte() == old(self).spec_current_byte(),
            final(self).spec_current_idx() == old(self).spec_current_idx(),
    {
        proof {
            use_type_invariant(self.partial);
        }
        let mut bytes: Vec<u8> = Vec::new();
        core::mem::swap(&mut self.full_bytes, &mut bytes);
        proof {
            assert(bits_of_bytes(bytes@) =~= old(self)@.take(8 * bytes@.len() as int));
            assert(final(self)@ =~= old(self)@.skip(8 * bytes@.len() as int));
        }
        bytes
    }

    /// Returns the number of **bits** in the buffer.
    pub fn len(&self) -> (r: usize)
        requires
            self@.len() <= usize::MAX,
        ensures
            r == self@.len(),
    {
        8 * self.full_bytes.len() + self.partial.parts().1
    }

    /// If the number of bits in the buffer isn't divisible by 8, there exist 'leftover' bits,
    /// which cannot be turned into a byte without padding.
    ///
    /// The function returns those leftover bits, padded with zeroes on the right (so the least
    /// significant bit of the returned byte is a padding zero). If no leftover bits exist, the
    /// function returns None.
    ///
    /// Note that this operation does **not** remove those leftover bits from the buffer.
    pub fn get_leftover_bits(&self) -> (r: Option<u8>)
        ensures
            r is None <==> self@.len() % 8 == 0,
            r matches Some(byte) ==> byte == self.spec_current_byte(),
            r matches Some(byte) ==> forall|i: u8|
                0 <= i < 8 ==> #[trigger] bit_of_byte(byte, i) == (i < self@.len() % 8
                    && self@[self@.len() - self@.len() % 8 + i]),
    {
        let (byte, idx) = self.partial.parts();
        proof {
            lemma_free_bits_clear(byte, idx as u8);
        }
        if idx > 0 {
            Some(byte)
        } else {
            None
        }
    }

    /// The complete bytes held, oldest first.
    pub fn full_bytes(&self) -> (r: &Vec<u8>)
        ensures
            r@ == self.spec_full_bytes(),
    {
        &self.full_bytes
    }

    /// The partial byte. Its unused bits are clear.
    pub fn current_byte(&self) -> (r: u8)
        ensures
            r == self.spec_current_byte(),
    {
        self.partial.parts().0
    }

    /// How many bits the partial byte holds: fewer than 8.
    pub fn current_idx(&self) -> (r: usize)
        ensures
            r == self.spec_current_idx(),
            r < 8,
    {
        self.partial.parts().1
    }
}

/// Writing `count` ones after the first `idx` bits of a partial byte, where they fit.
proof fn lemma_fill_partial(byte: u8, idx: u8, count: u8)
    by (bit_vector)
    requires
        idx < 8,
        0 < count,
        idx + count < 8,
        byte & (0xffu8 >> idx) == 0,
    ensures
        forall|i: u8|
            i < idx ==> #[trigger] bit_of_byte(
                byte | (0xffu8 >> idx) & (0xffu8 << ((8u8 - ((idx + count) as u8)) as u8)),
                i,
            ) == bit_of_byte(byte, i),
        forall|i: u8|
            idx <= i < idx + count ==> #[trigger] bit_of_byte(
                byte | (0xffu8 >> idx) & (0xffu8 << ((8u8 - ((idx + count) as u8)) as u8)),
                i,
            ),
        (byte | (0xffu8 >> idx) & (0xffu8 << ((8u8 - ((idx + count) as u8)) as u8))) & (0xffu8 >> (
        (idx + count) as u8)) == 0,
{
}

/// Counting `count` more clear bits of a partial byte as written.
proof fn lemma_extend_clear(byte: u8, idx: u8, count: u8)
    by (bit_vector)
    requires
        idx < 8,
        idx + count < 8,
        byte & (0xffu8 >> idx) == 0,
    ensures
        forall|i: u8| idx <= i < 8 ==> !#[trigger] bit_of_byte(byte, i),
        byte & (0xffu8 >> ((idx + count) as u8)) == 0,
{
}

impl From<Vec<u8>> for BitBuffer {
    /// A buffer that holds the bits of `value`, all in complete bytes.
    fn from(value: Vec<u8>) -> (r: Self)
        ensures
            r@ == bits_of_bytes(value@),
            r.spec_full_bytes() == value@,
            r.spec_current_byte() == 0,
            r.spec_current_idx() == 0,
    {
        let r = Self { full_bytes: value, partial: PartialByte::empty() };
        assert(r@ =~= bits_of_bytes(value@));
        r
    }
}

impl FromSpecImpl<Vec<u8>> for BitBuffer {
    open spec fn obeys_from_spec() -> bool {
        false
    }

    open spec fn from_spec(value: Vec<u8>) -> Self {
        arbitrary()
    }
}

impl From<&[u8]> for BitBuffer {
    /// A buffer that holds the bits of `value`, all in complete bytes.
    fn from(value: &[u8]) -> (r: Self)
        ensures
            r@ == bits_of_bytes(value@),
            r.spec_full_bytes() == value@,
            r.spec_current_byte() == 0,
            r.spec_current_idx() == 0,
    {
        let mut bytes: Vec<u8> = Vec::new();
        let mut i: usize = 0;
        while i < value.len()
            invariant
                i <= value@.len(),
                bytes@ == value@.take(i as int),
            decreases value@.len() - i,
        {
            bytes.push(value[i]);
            i += 1;
            assert(bytes@ =~= value@.take(i as int));
        }
        assert(bytes@ =~= value@);
        BitBuffer::from(bytes)
    }
}

impl FromSpecImpl<&[u8]> for BitBuffer {
    open spec fn obeys_from_spec() -> bool {
        false
    }

    open spec fn from_spec(value: &[u8]) -> Self {
        arbitrary()
    }
}

} // verus!
