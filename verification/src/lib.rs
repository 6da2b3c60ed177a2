//! Lexical and syntactic front end of a small interface-description language
//! for data models and remote procedure calls.
//!
//! Source text is turned into tokens by [`lexer::tokens::Tokens`], which reads
//! its characters through the position tracker
//! [`lexer::char_positions::CharPositions`]. The grammar rules in [`parser`]
//! turn a one-token-lookahead stream of those tokens into syntax-tree nodes.
//! Every function's behaviour is stated over mathematical sequences of
//! characters and tokens and proved against them.
pub mod lexer;
pub mod parser;
