use ppm_cli::parser::{BitParser, ByteParser, Parser};
use ppm_cli::sim::Symbol;

#[test]
fn test_byte_parser_all_bytes() {
    let parser = ByteParser;
    for byte in 0..=255 {
        let result = parser.parse_byte(byte);
        let expected = vec![Symbol::Byte(byte)];
        assert_eq!(result, expected);
    }
}

#[test]
fn test_bit_parser_all_zero() {
    let parser = BitParser;
    let result = parser.parse_byte(0u8);
    let expected = vec![Symbol::Byte(0); 8];
    assert_eq!(result, expected);
}

#[test]
fn test_bit_parser_all_one() {
    let parser = BitParser;
    let result = parser.parse_byte(0b11111111);
    let expected = vec![Symbol::Byte(1); 8];
    assert_eq!(result, expected);
}

#[test]
fn test_bit_parser_alternating_bits() {
    let parser = BitParser;
    let result = parser.parse_byte(0b10101010);
    let expected = vec![
        Symbol::Byte(1),
        Symbol::Byte(0),
        Symbol::Byte(1),
        Symbol::Byte(0),
        Symbol::Byte(1),
        Symbol::Byte(0),
        Symbol::Byte(1),
        Symbol::Byte(0),
    ];
    assert_eq!(result, expected);
}

#[test]
fn test_bit_parser_reverse_alternating_bits() {
    let parser = BitParser;
    let result = parser.parse_byte(0b01010101);
    let expected = vec![
        Symbol::Byte(0),
        Symbol::Byte(1),
        Symbol::Byte(0),
        Symbol::Byte(1),
        Symbol::Byte(0),
        Symbol::Byte(1),
        Symbol::Byte(0),
        Symbol::Byte(1),
    ];
    assert_eq!(result, expected);
}

#[test]
fn test_bit_parser_random_bits() {
    let parser = BitParser;
    let result = parser.parse_byte(0b11001001);
    let expected = vec![
        Symbol::Byte(1),
        Symbol::Byte(1),
        Symbol::Byte(0),
        Symbol::Byte(0),
        Symbol::Byte(1),
        Symbol::Byte(0),
        Symbol::Byte(0),
        Symbol::Byte(1),
    ];
    assert_eq!(result, expected);
}
