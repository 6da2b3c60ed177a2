//! The nodes of the syntax tree and their grammar rules.
pub mod identifier;
pub mod ty;
