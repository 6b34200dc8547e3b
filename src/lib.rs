//! The core of a small ahead-of-time compiler: lexing, operator typing and
//! selection, the typed IR, translator rules, and the lowering of IR to a backend
//! SSA module whose blocks all end in a terminator.

pub mod ast;
pub mod backend;
pub mod bir;
pub mod errors;
pub mod interner;
pub mod ir;
pub mod layout;
pub mod lexer;
pub mod loops;
pub mod lowering;
pub mod relex;
pub mod resolve;
pub mod span;
pub mod symbol_table;
pub mod token;
pub mod ty;
pub mod typeck;
