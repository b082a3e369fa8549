//! A small interpreter for arithmetic expressions over arbitrary-precision
//! integers, with persistent named variables and an implicit last-value
//! binding readable through the reserved name `_`.

pub mod bigint;
pub mod error;
pub mod ast;
pub mod sem;
pub mod lex;
pub mod parse;
pub mod context;
pub mod laws;
pub mod script;

pub use bigint::Integer;
