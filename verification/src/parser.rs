//! Pre-processing of raw bytes into the symbols that are compressed.

use crate::bit_buffer::bits::bit_of_byte;
use crate::sim::Symbol;
use vstd::prelude::*;

verus! {

/// A trait for pre-processing raw byte values into compressible Symbols.
pub trait Parser {
    /// The symbols that stand for `byte`.
    spec fn symbols_of(&self, byte: u8) -> Seq<Symbol>;

    /// Turns a single byte into at least one Symbol.
    fn parse_byte(&self, byte: u8) -> (r: Vec<Symbol>)
        ensures
            r@ == self.symbols_of(byte),
            r@.len() >= 1,
    ;
}

impl<P: Parser + ?Sized> Parser for Box<P> {
    open spec fn symbols_of(&self, byte: u8) -> Seq<Symbol> {
        (**self).symbols_of(byte)
    }

    fn parse_byte(&self, byte: u8) -> (r: Vec<Symbol>) {
        (**self).parse_byte(byte)
    }
}

/// Regular parser - parses bytes directly into a `Symbol::Byte`
pub struct ByteParser;

impl Parser for ByteParser {
    open spec fn symbols_of(&self, byte: u8) -> Seq<Symbol> {
        seq![Symbol::Byte(byte)]
    }

    fn parse_byte(&self, byte: u8) -> (r: Vec<Symbol>) {
        let mut symbols: Vec<Symbol> = Vec::with_capacity(1);
        symbols.push(Symbol::Byte(byte));
        assert(symbols@ =~= seq![Symbol::Byte(byte)]);
        symbols
    }
}

/// Parser for binary symbols - each byte is parsed into 8 symbols, where each symbol is either
/// `Symbol::Byte(0)` or `Symbol::Byte(1)` (depending on the corresponding bit value).
/// Bits are parsed in big-endian.
pub struct BitParser;

impl Parser for BitParser {
    open spec fn symbols_of(&self, byte: u8) -> Seq<Symbol> {
        Seq::new(
            8,
            |i: int|
                if bit_of_byte(byte, i as u8) {
                    Symbol::Byte(1)
                } else {
                    Symbol::Byte(0)
                },
        )
    }

    fn parse_byte(&self, byte: u8) -> (r: Vec<Symbol>) {
        let mut symbols: Vec<Symbol> = Vec::with_capacity(8);
        let mut i: u8 = 0;
        while i < 8
            invariant
                i <= 8,
                symbols@ == self.symbols_of(byte).take(i as int),
            decreases 8 - i,
        {
            let mask: u8 = 0b10000000u8 >> i;
            let symbol = if byte & mask != 0 {
                Symbol::Byte(1)
            } else {
                Symbol::Byte(0)
            };
            assert((byte & (0b10000000u8 >> i) != 0) == bit_of_byte(byte, i)) by (bit_vector)
                requires
                    i < 8,
            ;
            symbols.push(symbol);
            i += 1;
            assert(symbols@ =~= self.symbols_of(byte).take(i as int));
        }
        assert(symbols@ =~= self.symbols_of(byte));
        symbols
    }
}

} // verus!
