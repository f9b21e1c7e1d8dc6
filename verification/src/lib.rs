//! Front end of a compiler for a small language.
//!
//! The front end turns source text into an ordered stream of tokens
//! ([`lexer`]) and then into a tree of nested groups, typed literals and
//! block scopes ([`parser`]). Every function carries a contract that states
//! what it computes over a mathematical model of its data.

pub mod lexer;
pub mod parser;
