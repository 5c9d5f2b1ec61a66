//! The model in which every supported symbol is as likely as any other.

use crate::frequencies::{lemma_max_frequency, Cfi, Frequency};
use crate::models::{Model, ModelCfi, ModelCfiError, ModelUpdateError};
use crate::number_types::CalculationsType;
use crate::sim::symbol::Symbol;
use crate::sim::SymbolIndexMapping;
use vstd::prelude::*;

verus! {

/// A probability model that assigns each symbol an equal probability
pub struct UniformDistributionModel<SIM: SymbolIndexMapping>(SIM);

/// The CFI of index `index` among `count` equally likely ones.
pub open spec fn uniform_cfi(index: usize, count: usize) -> Cfi {
    Cfi {
        start: Frequency::from_value(index as u64),
        end: Frequency::from_value((index + 1) as u64),
        total: Frequency::from_value(count as u64),
    }
}

impl<SIM: SymbolIndexMapping> UniformDistributionModel<SIM> {
    /// The mapping between symbols and indices that the model was made with.
    pub closed spec fn sim(&self) -> SIM {
        self.0
    }

    /// Initializes a UniformDistributionModel with a given Symbol-Index Mapping.
    ///
    /// ## Parameters:
    /// * sim - A mapping between symbols and indices.
    ///
    /// The model is well-formed unless the escape symbol is the only symbol that the mapping
    /// supports: such a model can code nothing.
    pub fn new(sim: SIM) -> (r: Self)
        ensures
            r.sim() == sim,
    {
        Self(sim)
    }
}

impl<SIM: SymbolIndexMapping> Model for UniformDistributionModel<SIM> {
    open spec fn wf(&self) -> bool {
        &&& self.sim().wf()
        &&& self.sim().index_of(Symbol::Esc) is Some ==> self.sim().count() >= 2
    }

    open spec fn cfi_of(&self, symbol: Symbol) -> Result<ModelCfi, ModelCfiError> {
        match self.sim().index_of(symbol) {
            None => Err(ModelCfiError::UnsupportedSymbol(symbol)),
            Some(index) => if symbol == Symbol::Esc {
                Ok(ModelCfi::EscapeCfi(uniform_cfi(index, self.sim().count())))
            } else {
                Ok(ModelCfi::IndexCfi(uniform_cfi(index, self.sim().count())))
            },
        }
    }

    open spec fn symbol_of(&self, cumulative_frequency: Frequency) -> Option<Symbol> {
        if cumulative_frequency@ >= self.sim().count() {
            None
        } else {
            self.sim().symbol_at(cumulative_frequency@ as usize)
        }
    }

    open spec fn total(&self) -> Frequency {
        Frequency::from_value(self.sim().count() as u64)
    }

    open spec fn update_outcome(&self, symbol: Symbol, model_result: ModelCfi) -> Result<
        (),
        ModelUpdateError,
    > {
        Ok(())
    }

    open spec fn follows(&self, before: &Self, symbol: Symbol, model_result: ModelCfi) -> bool {
        *self == *before
    }

    open spec fn escapes_left(&self) -> usize {
        0
    }

    fn get_cfi(&self, symbol: Symbol) -> (r: Result<ModelCfi, ModelCfiError>) {
        proof {
            self.0.lemma_one_to_one();
            lemma_max_frequency();
        }
        // Check the symbol:
        let index = match self.0.get_index(&symbol) {
            Some(index) => index,
            None => {
                return Err(ModelCfiError::UnsupportedSymbol(symbol));
            },
        };
        // Since each index is assigned a probability of 1, its CFI can be easily computed:
        let cfi = {
            let index = index as CalculationsType;
            Cfi {
                // A SIM can have a maximum of UNIQUE_SYMBOLS_AMOUNT which is far less than
                // Frequency::max()
                start: Frequency::new_unchecked(index),
                end: Frequency::new_unchecked(index + 1),
                total: self.get_total(),
            }
        };
        proof {
            let expected = uniform_cfi(index, self.sim().count());
            Frequency::lemma_from_value(index as u64);
            Frequency::lemma_from_value((index + 1) as u64);
            Frequency::lemma_view_injective(cfi.start, expected.start);
            Frequency::lemma_view_injective(cfi.end, expected.end);
        }

        Ok(
            if symbol.is_escape() {
                ModelCfi::EscapeCfi(cfi)
            } else {
                ModelCfi::IndexCfi(cfi)
            },
        )
    }

    fn get_symbol(&self, cumulative_frequency: Frequency) -> (r: Option<Symbol>) {
        // Since each index gets an equal probability, the cumulative frequency is equal to the
        // index itself:
        let cf: CalculationsType = cumulative_frequency.value();
        if cf >= self.0.supported_symbols_count() as CalculationsType {
            None
        } else {
            self.0.get_symbol(cf as usize)
        }
    }

    fn get_total(&self) -> (r: Frequency) {
        proof {
            self.0.lemma_one_to_one();
            lemma_max_frequency();
        }
        // A SIM can have a maximum of UNIQUE_SYMBOLS_AMOUNT which is far less than
        // Frequency::max()
        let count: CalculationsType = self.0.supported_symbols_count() as CalculationsType;
        let total = Frequency::new_unchecked(count);
        proof {
            Frequency::lemma_from_value(count);
            Frequency::lemma_view_injective(total, self.total());
        }
        total
    }

    /// The model has nothing to reset.
    fn flush(&mut self)
        ensures
            *final(self) == *old(self),
    {
    }

    /// The model takes every update and stays as it is.
    fn update(&mut self, symbol: Symbol, model_result: &ModelCfi) -> (r: Result<
        (),
        ModelUpdateError,
    >)
        ensures
            *final(self) == *old(self),
    {
        proof {
            self.0.lemma_one_to_one();
            if symbol == Symbol::Esc {
                let index = self.sim().index_of(symbol)->0;
                Frequency::lemma_from_value(index as u64);
                Frequency::lemma_from_value((index + 1) as u64);
                Frequency::lemma_from_value(self.sim().count() as u64);
            }
        }
        Ok(())
    }

    proof fn lemma_cfi_of(&self, symbol: Symbol) {
        self.sim().lemma_one_to_one();
        if let Some(index) = self.sim().index_of(symbol) {
            Frequency::lemma_from_value(index as u64);
            Frequency::lemma_from_value((index + 1) as u64);
            Frequency::lemma_from_value(self.sim().count() as u64);
        }
    }

    proof fn lemma_symbol_of(&self, cumulative_frequency: Frequency) {
        self.sim().lemma_one_to_one();
        if let Some(symbol) = self.symbol_of(cumulative_frequency) {
            let index = cumulative_frequency@ as usize;
            assert(self.sim().symbol_at(index) == Some(symbol));
            assert(self.sim().index_of(symbol) == Some(index));
            Frequency::lemma_from_value(index as u64);
            Frequency::lemma_from_value((index + 1) as u64);
        }
    }

    proof fn lemma_cfi_found(&self, symbol: Symbol, cumulative_frequency: Frequency) {
        self.sim().lemma_one_to_one();
        if let Some(index) = self.sim().index_of(symbol) {
            Frequency::lemma_from_value(index as u64);
            Frequency::lemma_from_value((index + 1) as u64);
        }
    }
}

} // verus!
