//! Probability models: what tells the codec which part of the interval a symbol gets.

pub mod distributions;

use crate::frequencies::{Cfi, Frequency};
use crate::sim::Symbol;
use vstd::prelude::*;

verus! {

/// Outputs of a probability model, wrapping CFIs to provide information for model-updating.
#[derive(Debug, Clone, Copy, PartialEq, Eq)]
pub enum ModelCfi {
    /// Normal CFI, represents a regular symbol/index
    IndexCfi(Cfi),
    /// Either a CFI of an escape symbol, OR a CFI given by the model to alert the decompression
    /// of something. If received during the compression of a non-escape symbol, the compressor
    /// needs to re-compress the symbol until the model outputs either an IndexCfi or an error.
    EscapeCfi(Cfi),
}

impl ModelCfi {
    /// The CFI that is wrapped.
    pub open spec fn spec_cfi(&self) -> Cfi {
        match self {
            ModelCfi::IndexCfi(cfi) => *cfi,
            ModelCfi::EscapeCfi(cfi) => *cfi,
        }
    }

    /// The CFI that is wrapped.
    pub fn cfi(&self) -> (r: Cfi)
        ensures
            r == self.spec_cfi(),
    {
        match self {
            ModelCfi::IndexCfi(cfi) => *cfi,
            ModelCfi::EscapeCfi(cfi) => *cfi,
        }
    }
}

/// Errors that might occur when getting a CFI from a model:
#[derive(Debug, Clone, Copy, PartialEq, Eq, Structural)]
pub enum ModelCfiError {
    /// The model does not support the symbol, yet it was queried
    UnsupportedSymbol(Symbol),
    /// The CFI of the symbol is empty
    EmptyCfi { symbol: Symbol },
}

/// A model could not take an update in.
#[derive(Debug, Clone, PartialEq, Eq)]
pub struct ModelUpdateError {
    pub message: String,
}

/// A trait defining the behavior of a probability model.
///
/// What a model answers is a function of its present state, named here by `cfi_of`,
/// `symbol_of` and `total`. The lemmas say how the answers hang together; whoever implements
/// the trait proves them.
pub trait Model {
    /// What the model needs to hold of itself to work.
    spec fn wf(&self) -> bool;

    /// What `get_cfi` answers for `symbol` in the present state.
    spec fn cfi_of(&self, symbol: Symbol) -> Result<ModelCfi, ModelCfiError>;

    /// What `get_symbol` answers for `cumulative_frequency` in the present state.
    spec fn symbol_of(&self, cumulative_frequency: Frequency) -> Option<Symbol>;

    /// The total of the cumulative frequencies in the present state.
    spec fn total(&self) -> Frequency;

    /// Whether `update` accepts `model_result` for `symbol` in the present state.
    spec fn update_outcome(&self, symbol: Symbol, model_result: ModelCfi) -> Result<
        (),
        ModelUpdateError,
    >;

    /// Whether the model can be in this state after `update` was called in the state `before`
    /// with `symbol` and `model_result`.
    spec fn follows(&self, before: &Self, symbol: Symbol, model_result: ModelCfi) -> bool;

    /// A bound on the number of escapes that the model can still ask for in a row.
    spec fn escapes_left(&self) -> usize;

    /// Computes a Cumulative-Frequency-Interval for a given symbol.
    ///
    /// ## Parameters:
    /// * _symbol_: The symbol whose CFI will be returned.
    ///   Depending on the implementation, the model may return the CFI directly or emit
    ///   an escape CFI. If the model emits an escape CFI for a non-escape symbol, it is the
    ///   responsibility of the caller to repeatedly call the `get_cfi` + `update` methods
    ///   until either an actual CFI or an error is returned.
    /// ## Returns:
    /// A CFI assigned to that symbol in the model, or an escape CFI leading to that CFI.
    ///
    /// ## Possible Failures:
    /// Each model should return `ModelCfiError::UnsupportedSymbol` if _symbol_ is not a part of
    /// their allowed symbols.
    /// Additionally, each model should return a `ModelCfiError::EmptyCfi` if the CFI assigned to
    /// the given symbol is empty (i.e: its start value equals its end value)
    fn get_cfi(&self, symbol: Symbol) -> (r: Result<ModelCfi, ModelCfiError>)
        requires
            self.wf(),
        ensures
            r == self.cfi_of(symbol),
    ;

    /// Given a cumulative frequency value, the function returns the symbol whose CFI in the
    /// model contains the given value.
    /// If no adequate CFI is found, None is returned.
    fn get_symbol(&self, cumulative_frequency: Frequency) -> (r: Option<Symbol>)
        requires
            self.wf(),
        ensures
            r == self.symbol_of(cumulative_frequency),
    ;

    /// Returns the total cumulative frequencies in the table currently used by the model.
    fn get_total(&self) -> (r: Frequency)
        requires
            self.wf(),
        ensures
            r == self.total(),
    ;

    /// Resets the state of the model. Must be called between independent uses of the model (for
    /// example, decompression after compression) to avoid unexpected behaviour.
    fn flush(&mut self)
        requires
            old(self).wf(),
        ensures
            final(self).wf(),
    {
    }

    /// Updates the model based on some ModelCfi. This function should be called right after
    /// calling the `model.get_cfi(symbol)` function, using its output as the current function's
    /// _model_result_ parameter.
    ///
    /// ## Parameters
    /// * _symbol_ - The symbol given to the model's `get_cfi` function.
    /// * _model_result_ - The result of calling `get_cfi` with _symbol_.
    ///
    /// ## Returns
    /// Nothing if the update went smoothly, otherwise the update error.
    ///
    /// An update that is accepted brings the model nearer to a plain answer: after an escape
    /// that was given for another symbol there are fewer escapes left; after the escape symbol
    /// itself there are fewer left, or as many and the escape CFI was not the whole range.
    fn update(&mut self, symbol: Symbol, model_result: &ModelCfi) -> (r: Result<
        (),
        ModelUpdateError,
    >)
        requires
            old(self).wf(),
            old(self).cfi_of(symbol) == Ok::<ModelCfi, ModelCfiError>(*model_result),
        ensures
            final(self).wf(),
            final(self).follows(old(self), symbol, *model_result),
            r == old(self).update_outcome(symbol, *model_result),
            r is Ok && symbol != Symbol::Esc && model_result is EscapeCfi ==> final(
                self).escapes_left() < old(self).escapes_left(),
            r is Ok && symbol == Symbol::Esc ==> final(self).escapes_left() < old(
                self).escapes_left() || (final(self).escapes_left() == old(self).escapes_left()
                && model_result.spec_cfi().end@ - model_result.spec_cfi().start@
                < model_result.spec_cfi().total@),
    ;

    /// A CFI that the model gives is well-formed, and its total is the model's total.
    proof fn lemma_cfi_of(&self, symbol: Symbol)
        requires
            self.wf(),
        ensures
            self.cfi_of(symbol) matches Ok(model_cfi) ==> model_cfi.spec_cfi().wf()
                && model_cfi.spec_cfi().total == self.total(),
    ;

    /// The symbol that the model finds for a cumulative frequency is one whose CFI contains
    /// that cumulative frequency.
    proof fn lemma_symbol_of(&self, cumulative_frequency: Frequency)
        requires
            self.wf(),
        ensures
            self.symbol_of(cumulative_frequency) matches Some(symbol) ==> (self.cfi_of(
                symbol,
            ) matches Ok(model_cfi) && model_cfi.spec_cfi().start@ <= cumulative_frequency@
                < model_cfi.spec_cfi().end@),
    ;

    /// The other way round: the symbol that the model finds for a cumulative frequency inside
    /// the CFI that it gives for a symbol is that symbol, or the escape symbol if the CFI is an
    /// escape CFI.
    proof fn lemma_cfi_found(&self, symbol: Symbol, cumulative_frequency: Frequency)
        requires
            self.wf(),
        ensures
            self.cfi_of(symbol) matches Ok(model_cfi) ==> (model_cfi.spec_cfi().start@
                <= cumulative_frequency@ < model_cfi.spec_cfi().end@ ==> self.symbol_of(
                cumulative_frequency,
            ) == Some(
                if model_cfi is EscapeCfi {
                    Symbol::Esc
                } else {
                    symbol
                },
            )),
    ;
}

} // verus!
