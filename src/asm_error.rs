//! Errors of the assembler. Positions are indices into the token sequence
//! of the statement being read.
use vstd::prelude::*;

verus! {

#[derive(Clone, Copy, Debug, PartialEq, Eq, Structural)]
pub enum AsmError {
    /// A token that the grammar does not allow at this position.
    UnexpectedToken { position: usize },
    /// The input ended where more was expected.
    UnexpectedEof,
    /// A mnemonic that names no instruction.
    UnexpectedInstructionMnemonic { position: usize },
    InvalidGprName { position: usize },
    InvalidCrName { position: usize },
    /// Overflow, division by zero, or a value that does not fit its field.
    ValueOutOfRange { position: usize },
    UndefinedSymbol { position: usize },
    NegativeShiftAmount { position: usize },
    /// A name defined twice in one scope during the first pass; `position`
    /// is the second definition's name.
    SymbolRedefinition { position: usize },
    /// A name whose second pass value or kind differs from the first pass.
    SymbolChangedValue { position: usize },
    /// A symbol name that holds the scope path separator.
    InvalidSymbolName { position: usize },
}

} // verus!
