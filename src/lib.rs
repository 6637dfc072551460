//! Parsing of plain-text double-entry ledgers: a grapheme-aware scanner, a
//! backtracking grammar engine, and the assembly of transactions with their
//! balance check.
use vstd::prelude::*;

pub mod segment;
pub mod combinator;
pub mod grammar;
pub mod accounting;
pub mod balance;
pub mod lexer;
pub mod amount;
pub mod parser;

verus! {

} // verus!
