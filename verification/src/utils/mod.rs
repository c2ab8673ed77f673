//! Building blocks shared by the parsers: the operator table, character
//! classes and text helpers, the numeral grammar and the tokenizer.

pub mod operators;
pub mod text;
pub mod numeral;
pub mod input;
