//! Engine-invariant violations.
//!
//! Identifiers are only ever issued by the tables themselves, so looking one
//! up and missing is a bug in the engine, not a user error.  The verified
//! operations rule these situations out by precondition; the constructors
//! here build the structured description of such a violation for the
//! unverified boundary, which treats it as fatal.

use vstd::prelude::*;

verus! {

/// A fatal inconsistency of the engine's own tables.
#[derive(Debug)]
pub enum Fault {
    /// A symbol was created twice; `index` is where it already sits.
    SymbolAlreadyExist { symbol: String, index: usize },
    /// A symbol was looked up and is not in the table.
    SymbolDoesNotExist { symbol: String },
    /// An identifier lies beyond the table, whose size is `length`.
    IndexOutOfBounds { index: usize, length: usize },
    /// The register table and the register storage fell out of lockstep.
    InconsistentRegisterTable,
}

/// Describes a symbol created twice, already sitting at `index`.
pub fn symbol_already_exist(symbol: String, index: usize) -> (f: Fault)
    ensures
        f matches Fault::SymbolAlreadyExist { symbol: s, index: i } && s@ == symbol@ && i == index,
{
    Fault::SymbolAlreadyExist { symbol, index }
}

/// Describes a lookup of a symbol that is not in the table.
pub fn symbol_does_not_exist(symbol: String) -> (f: Fault)
    ensures
        f matches Fault::SymbolDoesNotExist { symbol: s } && s@ == symbol@,
{
    Fault::SymbolDoesNotExist { symbol }
}

/// Describes an identifier beyond a table of size `length`.
pub fn index_out_of_bounds(index: usize, length: usize) -> (f: Fault)
    ensures
        f matches Fault::IndexOutOfBounds { index: i, length: l } && i == index && l == length,
{
    Fault::IndexOutOfBounds { index, length }
}

/// Describes a register table whose name table and storage disagree.
pub fn inconsistent_register_table() -> (f: Fault)
    ensures
        f matches Fault::InconsistentRegisterTable,
{
    Fault::InconsistentRegisterTable
}

} // verus!
