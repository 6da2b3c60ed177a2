//! The tokenizer and the data it produces.
pub mod char_positions;
pub mod grammar;
pub mod laws;
pub mod position;
pub mod token;
pub mod tokens;
pub mod unicode;
