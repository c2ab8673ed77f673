//! Expressions in postfix notation: the conversion from infix tokens, the
//! stack machine that evaluates the result, and the two put together.

use vstd::prelude::*;
use crate::ast::ast::{applies_operators, evaluates_to, reads_numerals, Expr};
use crate::error::{Error, Fault};
use crate::rpn::calculate::{perform_calculations, postfix_tree};
use crate::rpn::parse::{infix_to_postfix, to_postfix};
use crate::utils::input::{get_normalized_input, tokenize};
use crate::utils::operators::BinaryOperator;

pub mod agreement;
pub mod calculate;
pub mod parse;

verus! {

/// The tree of a plain expression by way of its postfix form, or the error
/// of the tokenizer, the converter or the stack machine.
pub open spec fn expression(input: Seq<char>) -> Result<Expr, Fault> {
    match tokenize(input) {
        Err(e) => Err(Fault::Tokenization(e)),
        Ok(tokens) => match to_postfix(tokens) {
            Err(e) => Err(Fault::Syntax(e)),
            Ok(postfix) => match postfix_tree(postfix) {
                Err(e) => Err(Fault::Calculation(e)),
                Ok(tree) => Ok(tree),
            },
        },
    }
}

/// Evaluates a plain expression: tokenizes it, brings the tokens into
/// postfix order and runs them through the stack machine.
pub fn calculate<V, N: Fn(&str) -> V, A: Fn(BinaryOperator, V, V) -> V>(
    input: String,
    number: &N,
    apply: &A,
) -> (result: Result<V, Error>)
    requires
        reads_numerals(*number),
        applies_operators(*apply),
    ensures
        match expression(input@) {
            Err(fault) => result matches Err(e) && e@ == fault,
            Ok(tree) => result matches Ok(v) && evaluates_to(tree, *number, *apply, v),
        },
{
    let infix = match get_normalized_input(input.as_str()) {
        Ok(tokens) => tokens,
        Err(e) => { return Err(Error::Tokenization(e)); },
    };
    let postfix = match infix_to_postfix(infix) {
        Ok(tokens) => tokens,
        Err(e) => { return Err(Error::Syntax(e)); },
    };
    match perform_calculations(postfix, number, apply) {
        Ok(v) => Ok(v),
        Err(e) => Err(Error::Calculation(e)),
    }
}

} // verus!
