//! The alphabet of the codec.

use vstd::prelude::*;

verus! {

/// The number of unique symbols (256 byte values + 1 EOF + 1 ESCAPE).
pub const UNIQUE_SYMBOLS_AMOUNT: usize = 258;

/// A symbol in the compression/decompression process, its possible values contain all byte
/// values plus additional metadata values.
#[derive(Copy, Clone, Debug, PartialEq, Eq, Structural)]
pub enum Symbol {
    /// A byte value
    Byte(u8),
    /// An End-Of-File value
    Eof,
    /// An 'escape' value
    Esc,
}

impl Symbol {
    pub fn is_escape(&self) -> (r: bool)
        ensures
            r == (*self == Symbol::Esc),
    {
        matches!(self, Symbol::Esc)
    }
}

} // verus!
