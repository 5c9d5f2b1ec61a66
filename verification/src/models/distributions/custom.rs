//! A model whose distribution is given by a table of frequencies.

use crate::frequencies::static_table::StaticFrequencyTable;
use crate::frequencies::{
    cfi_at, cfi_contains, cumulative, lemma_cfi_at, lemma_cfi_contains_exists, lemma_cfi_contains_unique,
    max_frequency, total_of, values_of, Frequency, FrequencyTable, OverflowOnTableBuild,
};
use crate::models::{Model, ModelCfi, ModelCfiError, ModelUpdateError};
use crate::sim::{Symbol, SymbolIndexMapping};
use vstd::prelude::*;

verus! {

/// Why a custom model could not be made.
#[derive(Debug, Clone, Copy, PartialEq, Eq)]
pub enum CustomModelError {
    /// The SIM supports a different amount of symbols than there are frequencies.
    LengthMismatch { supported: usize, given: usize },
    /// The sum of the frequencies exceeds the largest frequency.
    Overflow(OverflowOnTableBuild),
}

/// A probability model with a custom distribution for indices.
pub struct CustomDistributionModel<SIM: SymbolIndexMapping> {
    /// The table holding all frequencies
    table: StaticFrequencyTable,
    /// A mapping between symbols and indices in the table
    sim: SIM,
}

/// A CFI with the tag of its symbol: the CFI of the escape symbol is an escape CFI.
pub open spec fn tagged(symbol: Symbol, cfi: crate::frequencies::Cfi) -> ModelCfi {
    if symbol == Symbol::Esc {
        ModelCfi::EscapeCfi(cfi)
    } else {
        ModelCfi::IndexCfi(cfi)
    }
}

impl<SIM: SymbolIndexMapping> CustomDistributionModel<SIM> {
    /// The mapping between symbols and indices that the model was made with.
    pub closed spec fn sim(&self) -> SIM {
        self.sim
    }

    /// The frequency of each index.
    pub closed spec fn frequencies(&self) -> Seq<nat> {
        self.table.frequencies()
    }

    /// The table is in order and as long as the mapping asks.
    pub closed spec fn table_fits(&self) -> bool {
        &&& self.table.wf()
        &&& self.table.frequencies().len() == self.sim.count()
    }

    /// Creates a model with a custom distribution for indices.
    ///
    /// ## Parameters
    /// * sim: A mapping between symbols and indices in _frequencies_.
    /// * frequencies: A slice of symbol frequencies. The mapping between the symbols and the
    ///   frequencies is determined by _sim_.
    /// ## Potential Failures
    /// If the length of _frequencies_ does not equal `sim.supported_symbols_count()`, an error
    /// will be returned.
    /// If the sum of the frequencies exceeds Frequency::max(), an error will be returned.
    ///
    /// The model is well-formed unless the escape symbol has all the frequency there is: such a
    /// model can code nothing.
    pub fn new(sim: SIM, frequencies: &[Frequency]) -> (r: Result<Self, CustomModelError>)
        requires
            sim.wf(),
        ensures
            frequencies@.len() != sim.count() ==> r == Err::<Self, CustomModelError>(
                CustomModelError::LengthMismatch {
                    supported: sim.count(),
                    given: frequencies@.len() as usize,
                },
            ),
            frequencies@.len() == sim.count() && total_of(values_of(frequencies@))
                > max_frequency() ==> r matches Err(CustomModelError::Overflow(_)),
            r matches Err(CustomModelError::Overflow(e)) ==> {
                &&& e.index < frequencies@.len()
                &&& cumulative(values_of(frequencies@), e.index as int) <= max_frequency()
                &&& cumulative(values_of(frequencies@), e.index + 1) > max_frequency()
            },
            frequencies@.len() == sim.count() && total_of(values_of(frequencies@))
                <= max_frequency() ==> r is Ok,
            r matches Ok(model) ==> {
                &&& model.sim() == sim
                &&& model.frequencies() == values_of(frequencies@)
                &&& model.table_fits()
            },
    {
        let supported_symbols = sim.supported_symbols_count();
        if supported_symbols != frequencies.len() {
            Err(
                CustomModelError::LengthMismatch {
                    supported: supported_symbols,
                    given: frequencies.len(),
                },
            )
        } else {
            match StaticFrequencyTable::new(frequencies) {
                Ok(table) => Ok(Self { sim, table }),
                Err(e) => Err(CustomModelError::Overflow(e)),
            }
        }
    }

    /// The index of the CFI that contains `cumulative_frequency`, if there is one.
    pub open spec fn index_for(&self, cumulative_frequency: nat) -> Option<usize> {
        if exists|i: int| cfi_contains(self.frequencies(), i, cumulative_frequency) {
            Some(
                (choose|i: int| cfi_contains(self.frequencies(), i, cumulative_frequency)) as usize,
            )
        } else {
            None
        }
    }
}

impl<SIM: SymbolIndexMapping> Model for CustomDistributionModel<SIM> {
    open spec fn wf(&self) -> bool {
        &&& self.sim().wf()
        &&& self.table_fits()
        &&& self.sim().index_of(Symbol::Esc) matches Some(index) ==> self.frequencies()[index as int]
            < total_of(self.frequencies())
    }

    open spec fn cfi_of(&self, symbol: Symbol) -> Result<ModelCfi, ModelCfiError> {
        match self.sim().index_of(symbol) {
            None => Err(ModelCfiError::UnsupportedSymbol(symbol)),
            Some(index) => match cfi_at(self.frequencies(), index as int) {
                None => Err(ModelCfiError::EmptyCfi { symbol }),
                Some(cfi) => Ok(tagged(symbol, cfi)),
            },
        }
    }

    open spec fn symbol_of(&self, cumulative_frequency: Frequency) -> Option<Symbol> {
        match self.index_for(cumulative_frequency@ as nat) {
            None => None,
            Some(index) => self.sim().symbol_at(index),
        }
    }

    open spec fn total(&self) -> Frequency {
        Frequency::from_value(total_of(self.frequencies()) as u64)
    }

    open spec fn update_outcome(&self, symbol: Symbol, model_result: ModelCfi) -> Result<
        (),
        ModelUpdateError,
    > {
        Ok(())
    }

    open spec fn follows(&self, before: &Self, symbol: Symbol, model_result: ModelCfi) -> bool {
        *self == *before
    }

    open spec fn escapes_left(&self) -> usize {
        0
    }

    fn get_cfi(&self, symbol: Symbol) -> (r: Result<ModelCfi, ModelCfiError>) {
        let index = match self.sim.get_index(&symbol) {
            Some(index) => index,
            None => {
                return Err(ModelCfiError::UnsupportedSymbol(symbol));
            },
        };

        match self.table.get_cfi(index) {
            Some(cfi) => {
                if symbol.is_escape() {
                    Ok(ModelCfi::EscapeCfi(cfi))
                } else {
                    Ok(ModelCfi::IndexCfi(cfi))
                }
            },
            None => Err(ModelCfiError::EmptyCfi { symbol }),
        }
    }

    fn get_symbol(&self, cumulative_frequency: Frequency) -> (r: Option<Symbol>) {
        proof {
            lemma_cfi_contains_exists(self.frequencies(), cumulative_frequency@ as nat);
        }
        match self.table.get_index(cumulative_frequency) {
            Some(index) => {
                proof {
                    let chosen = choose|i: int|
                        cfi_contains(self.frequencies(), i, cumulative_frequency@ as nat);
                    lemma_cfi_contains_unique(
                        self.frequencies(),
                        index as int,
                        chosen,
                        cumulative_frequency@ as nat,
                    );
                }
                self.sim.get_symbol(index)
            },
            None => None,
        }
    }

    fn get_total(&self) -> (r: Frequency) {
        let total = self.table.get_total();
        proof {
            Frequency::lemma_from_value(total@);
            Frequency::lemma_view_injective(total, self.total());
        }
        total
    }

    /// The model has nothing to reset.
    fn flush(&mut self)
        ensures
            *final(self) == *old(self),
    {
    }

    /// The model takes every update and stays as it is.
    fn update(&mut self, symbol: Symbol, model_result: &ModelCfi) -> (r: Result<
        (),
        ModelUpdateError,
    >)
        ensures
            *final(self) == *old(self),
    {
        proof {
            self.table.lemma_total_fits();
            if symbol == Symbol::Esc {
                let index = self.sim().index_of(symbol)->0;
                lemma_cfi_at(self.frequencies(), index as int);
            }
        }
        Ok(())
    }

    proof fn lemma_cfi_of(&self, symbol: Symbol) {
        self.table.lemma_total_fits();
        if let Some(index) = self.sim().index_of(symbol) {
            lemma_cfi_at(self.frequencies(), index as int);
            Frequency::lemma_from_value(total_of(self.frequencies()) as u64);
            if let Some(cfi) = cfi_at(self.frequencies(), index as int) {
                Frequency::lemma_view_injective(cfi.total, self.total());
            }
        }
    }

    proof fn lemma_symbol_of(&self, cumulative_frequency: Frequency) {
        self.table.lemma_total_fits();
        self.sim().lemma_one_to_one();
        if let Some(symbol) = self.symbol_of(cumulative_frequency) {
            let index = self.index_for(cumulative_frequency@ as nat)->0;
            assert(cfi_contains(self.frequencies(), index as int, cumulative_frequency@ as nat));
            assert(self.sim().symbol_at(index) == Some(symbol));
            assert(self.sim().index_of(symbol) == Some(index));
            lemma_cfi_at(self.frequencies(), index as int);
        }
    }

    proof fn lemma_cfi_found(&self, symbol: Symbol, cumulative_frequency: Frequency) {
        self.table.lemma_total_fits();
        self.sim().lemma_one_to_one();
        if let Some(index) = self.sim().index_of(symbol) {
            lemma_cfi_at(self.frequencies(), index as int);
            if let Some(cfi) = cfi_at(self.frequencies(), index as int) {
                if cfi.start@ <= cumulative_frequency@ < cfi.end@ {
                    let cf = cumulative_frequency@ as nat;
                    assert(cfi_contains(self.frequencies(), index as int, cf));
                    let chosen = choose|i: int| cfi_contains(self.frequencies(), i, cf);
                    lemma_cfi_contains_unique(self.frequencies(), index as int, chosen, cf);
                }
            }
        }
    }
}

} // verus!
