use ppm_cli::bit_buffer::bit_iter::BitIterator;
use ppm_cli::bit_buffer::BitBuffer;

fn bits_of(buffer: BitBuffer) -> Vec<bool> {
    BitIterator::from(buffer).collect()
}

/// Bits that look random enough.
fn scrambled(count: usize) -> Vec<bool> {
    let mut state: u32 = 12345;
    (0..count)
        .map(|_| {
            state = state.wrapping_mul(1103515245).wrapping_add(12345);
            (state >> 16) & 1 == 1
        })
        .collect()
}

#[test]
fn appended_bits_come_back_in_order() {
    for count in [0, 1, 7, 8, 9, 16, 100, 1001] {
        let bits = scrambled(count);
        let mut buffer = BitBuffer::new();
        for bit in &bits {
            buffer.append(*bit);
        }
        assert_eq!(buffer.len(), count);
        assert_eq!(bits_of(buffer), bits);
    }
}

#[test]
fn append_repeated_is_repeated_append() {
    for before in 0..10 {
        for repetitions in 0..40 {
            for bit in [false, true] {
                let mut at_once = BitBuffer::new();
                let mut one_by_one = BitBuffer::new();
                for earlier in scrambled(before) {
                    at_once.append(earlier);
                    one_by_one.append(earlier);
                }
                at_once.append_repeated(bit, repetitions);
                for _ in 0..repetitions {
                    one_by_one.append(bit);
                }
                assert_eq!(at_once.len(), before + repetitions);
                assert_eq!(at_once.full_bytes(), one_by_one.full_bytes());
                assert_eq!(at_once.current_byte(), one_by_one.current_byte());
                assert_eq!(at_once.current_idx(), one_by_one.current_idx());
                assert_eq!(bits_of(at_once), bits_of(one_by_one));
            }
        }
    }
}

#[test]
fn complete_bytes_are_an_eighth_of_the_bits() {
    for count in 0..50 {
        let bits = scrambled(count);
        let mut buffer = BitBuffer::new();
        for bit in &bits {
            buffer.append(*bit);
        }
        let leftover = buffer.get_leftover_bits();
        let bytes = buffer.get_complete_bytes();
        assert_eq!(bytes.len(), count / 8);
        assert_eq!(buffer.len(), count % 8);
        assert_eq!(buffer.get_leftover_bits(), leftover);
        assert_eq!(leftover.is_some(), count % 8 != 0);
        assert_eq!(bits_of(buffer), bits[count - count % 8..].to_vec());
        assert_eq!(bits_of(BitBuffer::from(bytes)), bits[..count - count % 8].to_vec());
    }
}

#[test]
fn leftover_is_padded_with_zeros() {
    let mut buffer = BitBuffer::new();
    buffer.append_repeated(true, 11);
    assert_eq!(buffer.get_leftover_bits(), Some(0b1110_0000));
    buffer.append(false);
    buffer.append(true);
    assert_eq!(buffer.get_leftover_bits(), Some(0b1110_1000));
}

#[test]
fn bytes_round_trip_through_bits() {
    let bytes: Vec<u8> = (0..=255).collect();
    let bits = bits_of(BitBuffer::from(bytes.clone()));
    assert_eq!(bits.len(), 8 * bytes.len());
    let regrouped: Vec<u8> = bits
        .chunks(8)
        .map(|chunk| chunk.iter().fold(0u8, |byte, bit| (byte << 1) | *bit as u8))
        .collect();
    assert_eq!(regrouped, bytes);
    assert_eq!(BitIterator::from(bytes).collect(), bits);
}

#[test]
fn iterator_yields_one_bit_at_a_time() {
    let mut buffer = BitBuffer::from(vec![0b1000_0001u8]);
    buffer.append(true);
    buffer.append(false);
    let mut bits = BitIterator::from(buffer);
    let expected = [true, false, false, false, false, false, false, true, true, false];
    for bit in expected {
        assert_eq!(bits.next(), Some(bit));
    }
    assert_eq!(bits.next(), None);
    assert_eq!(bits.next(), None);
}
