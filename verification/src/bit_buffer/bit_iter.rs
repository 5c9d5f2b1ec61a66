//! Reading bits back, in the order in which they were written.

use super::bits::{bits_of_bytes, leading_bits};
use super::BitBuffer;
use vstd::prelude::*;
use vstd::std_specs::convert::FromSpecImpl;

verus! {

/// An iterator over bits. Can be derived from a BitBuffer or from a sequence of bytes.
///
/// It yields the bits of the complete bytes, each byte most significant bit first, and then the
/// bits of the incomplete byte, if there is one.
pub struct BitIterator {
    full_bytes: Vec<u8>,
    /// Index of the byte that is being read; `full_bytes.len()` once all are read.
    byte_pos: usize,
    /// Index of the next bit in the byte that is being read.
    current_idx: usize,
    /// The incomplete byte and the number of bits in it (0 if there is none).
    incomplete_byte: u8,
    incomplete_len: usize,
}

impl BitIterator {
    #[verifier::type_invariant]
    spec fn well_formed(self) -> bool {
        &&& self.incomplete_len < 8
        &&& self.byte_pos <= self.full_bytes@.len()
        &&& self.byte_pos < self.full_bytes@.len() ==> self.current_idx < 8
        &&& self.byte_pos == self.full_bytes@.len() ==> self.current_idx <= self.incomplete_len
    }

    /// All the bits that the iterator was made of.
    pub closed spec fn all_bits(&self) -> Seq<bool> {
        bits_of_bytes(self.full_bytes@) + leading_bits(
            self.incomplete_byte,
            self.incomplete_len as nat,
        )
    }

    /// How many bits have been read.
    pub closed spec fn position(&self) -> nat {
        (8 * self.byte_pos + self.current_idx) as nat
    }

    /// The bits that are still to come, next one first.
    pub open spec fn view(&self) -> Seq<bool> {
        self.all_bits().skip(self.position() as int)
    }

    /// The next bit, or `None` when all bits have been read.
    pub fn next(&mut self) -> (r: Option<bool>)
        ensures
            old(self)@.len() == 0 ==> r is None && final(self)@ == old(self)@,
            old(self)@.len() > 0 ==> r == Some(old(self)@[0]) && final(self)@ == old(self)@.skip(1),
            final(self).all_bits() == old(self).all_bits(),
    {
        proof {
            use_type_invariant(&*self);
        }
        // First try the current byte:
        if self.byte_pos < self.full_bytes.len() {
            let byte: u8 = self.full_bytes[self.byte_pos];
            let idx: usize = self.current_idx;
            // Get current bit:
            let bit = ((byte >> (7 - idx as u8)) & 1) == 1;
            assert(bit == self.all_bits()[self.position() as int]);
            // Stay in the current byte if not all bits are consumed, otherwise move to the next:
            if idx + 1 < 8 {
                self.current_idx = idx + 1;
            } else {
                self.current_idx = 0;
                self.byte_pos = self.byte_pos + 1;
            }
            assert(final(self)@ =~= old(self)@.skip(1));
            return Some(bit);
        }
        // Now try the incomplete byte:

        if self.current_idx < self.incomplete_len {
            let idx: usize = self.current_idx;
            let bit = ((self.incomplete_byte >> (7 - idx as u8)) & 1) == 1;
            assert(bit == self.all_bits()[self.position() as int]);
            self.current_idx = idx + 1;
            assert(final(self)@ =~= old(self)@.skip(1));
            Some(bit)
        } else {
            None
        }
    }

    /// Reads all the bits that are left, next one first.
    pub fn collect(self) -> (r: Vec<bool>)
        ensures
            r@ == self@,
    {
        let mut this = self;
        let mut bits: Vec<bool> = Vec::new();
        loop
            invariant
                bits@ + this@ == self@,
            decreases this@.len(),
        {
            match this.next() {
                Some(bit) => {
                    bits.push(bit);
                    assert(bits@ + this@ =~= self@);
                },
                None => {
                    assert(bits@ =~= self@);
                    return bits;
                },
            }
        }
    }
}

impl From<BitBuffer> for BitIterator {
    /// An iterator over the bits of `buffer`, first one first.
    fn from(buffer: BitBuffer) -> (r: Self)
        ensures
            r@ == buffer@,
    {
        let mut source = buffer;
        let incomplete_byte: u8 = source.current_byte();
        let incomplete_len: usize = source.current_idx();
        let full_bytes = source.get_complete_bytes();
        let r = BitIterator {
            full_bytes,
            byte_pos: 0,
            current_idx: 0,
            incomplete_byte,
            incomplete_len,
        };
        assert(r@ =~= buffer@);
        r
    }
}

impl FromSpecImpl<BitBuffer> for BitIterator {
    open spec fn obeys_from_spec() -> bool {
        false
    }

    open spec fn from_spec(buffer: BitBuffer) -> Self {
        arbitrary()
    }
}

impl From<Vec<u8>> for BitIterator {
    /// An iterator over the bits of `value`: there are only complete bytes here.
    fn from(value: Vec<u8>) -> (r: Self)
        ensures
            r@ == bits_of_bytes(value@),
    {
        let r = BitIterator {
            full_bytes: value,
            byte_pos: 0,
            current_idx: 0,
            incomplete_byte: 0,
            incomplete_len: 0,
        };
        assert(r@ =~= bits_of_bytes(value@));
        r
    }
}

impl FromSpecImpl<Vec<u8>> for BitIterator {
    open spec fn obeys_from_spec() -> bool {
        false
    }

    open spec fn from_spec(value: Vec<u8>) -> Self {
        arbitrary()
    }
}

} // verus!
