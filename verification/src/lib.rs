//! Core of a register-machine ("unlimited register machine") teaching engine:
//! insertion-ordered symbol tables binding names to dense identifiers, a bank
//! of arbitrary-precision natural registers, a flat instruction-graph program
//! form, a macro expander that inlines named macros into that flat form, and
//! an interpreter that single-steps the flat form until it halts.

pub mod ast;
pub mod expander;
pub mod fault;
pub mod interpreter;
pub mod machine;
pub mod natural;
pub mod program;
pub mod table;
