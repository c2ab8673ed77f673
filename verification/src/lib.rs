//! A verified arithmetic-expression compiler.
//!
//! An expression is tokenized, parsed with the shunting-yard algorithm into a
//! tree and evaluated; a `fn name(parameters){body}` line stores a reusable
//! template whose named leaves are bound at call time.
//!
//! The library never computes with numbers itself. A numeral is kept as the
//! text it was written in, and evaluation takes the arithmetic from its
//! caller as two functions: one that reads a numeral, one that applies an
//! operator. Everything else is proved against its contract.
//!
//! - [`utils`] holds the operator table, the grammar of numerals and the
//!   tokenizer.
//! - [`ast`] holds the trees, the parser, function definitions and calls,
//!   and the session that handles a line at a time. Its modules `grammar`
//!   and `phrases` state what the parser and the tokenizer read: the tree of
//!   an expression is the one that precedence, associativity and parentheses
//!   call for.
//! - [`rpn`] holds the same pipeline by way of postfix notation, and the
//!   proof that both pipelines agree.
//! - [`error`] holds the errors.

pub mod error;
pub mod utils;
pub mod ast;
pub mod rpn;
