//! Mappings between symbols and the dense indices that frequency tables are keyed by.

pub mod symbol;

pub use self::symbol::{Symbol, UNIQUE_SYMBOLS_AMOUNT};
use vstd::prelude::*;

verus! {

/// A one-to-one mapping between a set of supported symbols and the indices
/// `0..supported_symbols_count()`.
pub trait SymbolIndexMapping {
    /// What the mapping needs to hold of itself to work.
    spec fn wf(&self) -> bool;

    /// The index of `symbol`, if the mapping supports it.
    spec fn index_of(&self, symbol: Symbol) -> Option<usize>;

    /// The symbol that `index` is assigned to, if there is one.
    spec fn symbol_at(&self, index: usize) -> Option<Symbol>;

    /// The number of symbols that the mapping supports.
    spec fn count(&self) -> usize;

    /// Computes a unique index for _symbol_. If _symbol_ is not supported by the mapping, None is
    /// returned. An index that is returned lies in the range
    /// [0, `self.supported_symbols_count()`).
    fn get_index(&self, symbol: &Symbol) -> (r: Option<usize>)
        requires
            self.wf(),
        ensures
            r == self.index_of(*symbol),
    ;

    /// Returns the symbol to which _index_ is assigned to. If no symbol is mapped to _index_,
    /// None is returned.
    fn get_symbol(&self, index: usize) -> (r: Option<Symbol>)
        requires
            self.wf(),
        ensures
            r == self.symbol_at(index),
    ;

    /// Returns the number of symbols the mapping supports.
    fn supported_symbols_count(&self) -> (r: usize)
        requires
            self.wf(),
        ensures
            r == self.count(),
    ;

    /// The two directions of the mapping are inverse to each other, every index below the count
    /// is taken, and none beyond it. As symbols are mapped one to one, there are no more indices
    /// than symbols.
    proof fn lemma_one_to_one(&self)
        requires
            self.wf(),
        ensures
            self.count() <= UNIQUE_SYMBOLS_AMOUNT,
            forall|s: Symbol| #[trigger]
                self.index_of(s) matches Some(i) ==> i < self.count() && self.symbol_at(i) == Some(
                    s,
                ),
            forall|i: usize| #[trigger]
                self.symbol_at(i) matches Some(s) ==> self.index_of(s) == Some(i),
            forall|i: usize| i < self.count() ==> (#[trigger] self.symbol_at(i)) is Some,
    ;
}

/// Default implementation of Symbol-Index Mapping, supports every symbol: a byte has its own
/// value as index, EOF has 256 and ESC has 257.
pub struct DefaultSIM;

impl SymbolIndexMapping for DefaultSIM {
    open spec fn wf(&self) -> bool {
        true
    }

    open spec fn index_of(&self, symbol: Symbol) -> Option<usize> {
        match symbol {
            Symbol::Byte(b) => Some(b as usize),
            Symbol::Eof => Some(256),
            Symbol::Esc => Some(257),
        }
    }

    open spec fn symbol_at(&self, index: usize) -> Option<Symbol> {
        if index < 256 {
            Some(Symbol::Byte(index as u8))
        } else if index == 256 {
            Some(Symbol::Eof)
        } else if index == 257 {
            Some(Symbol::Esc)
        } else {
            None
        }
    }

    open spec fn count(&self) -> usize {
        UNIQUE_SYMBOLS_AMOUNT
    }

    fn get_index(&self, symbol: &Symbol) -> (r: Option<usize>) {
        match symbol {
            Symbol::Byte(b) => Some(*b as usize),
            Symbol::Eof => Some(256),
            Symbol::Esc => Some(257),
        }
    }

    fn get_symbol(&self, index: usize) -> (r: Option<Symbol>) {
        if index < 256 {
            Some(Symbol::Byte(index as u8))
        } else if index == 256 {
            Some(Symbol::Eof)
        } else if index == 257 {
            Some(Symbol::Esc)
        } else {
            None
        }
    }

    fn supported_symbols_count(&self) -> (r: usize) {
        UNIQUE_SYMBOLS_AMOUNT
    }

    proof fn lemma_one_to_one(&self) {
    }
}

} // verus!
