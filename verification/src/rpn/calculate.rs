//! The stack machine that evaluates a list of postfix tokens.

use vstd::prelude::*;
use crate::ast::ast::{applies_operators, evaluates_to, reads_numerals, Expr};
use crate::ast::parse::{classify, combine, kind_of, TokenKind};
use crate::error::{CalculationError, CalculationFault};
use crate::utils::operators::BinaryOperator;
use crate::utils::text::views;

verus! {

/// The stack of trees after one more postfix token: a numeral is pushed, and
/// an operator takes the two topmost trees as its operands, the topmost one
/// on the right.
pub open spec fn step(stack: Seq<Expr>, token: Seq<char>) -> Result<Seq<Expr>, CalculationFault> {
    match kind_of(token) {
        TokenKind::Numeral => Ok(stack.push(Expr::Operand { text: token })),
        TokenKind::Operator(info) => match combine(stack, info.operation) {
            Some(combined) => Ok(combined),
            None => Err(CalculationFault::NotEnoughOperands),
        },
        _ => Err(CalculationFault::InvalidNumber { token }),
    }
}

/// The stack of trees after the postfix tokens `tokens`, or the first error
/// on the way.
pub open spec fn run(tokens: Seq<Seq<char>>) -> Result<Seq<Expr>, CalculationFault>
    decreases tokens.len(),
{
    if tokens.len() == 0 {
        Ok(Seq::empty())
    } else {
        match run(tokens.drop_last()) {
            Err(e) => Err(e),
            Ok(stack) => step(stack, tokens.last()),
        }
    }
}

/// The tree that the postfix tokens `tokens` denote.
///
/// One token alone must be a numeral. Two tokens are refused. Three or more
/// are run through the stack machine, which must end with one tree.
pub open spec fn postfix_tree(tokens: Seq<Seq<char>>) -> Result<Expr, CalculationFault> {
    if tokens.len() == 0 {
        Err(CalculationFault::EmptyInput)
    } else if tokens.len() == 1 {
        if kind_of(tokens[0]) is Numeral {
            Ok(Expr::Operand { text: tokens[0] })
        } else {
            Err(CalculationFault::InvalidNumber { token: tokens[0] })
        }
    } else if tokens.len() == 2 {
        Err(CalculationFault::InputTooShort)
    } else {
        match run(tokens) {
            Err(e) => Err(e),
            Ok(stack) => if stack.len() == 1 {
                Ok(stack[0])
            } else {
                Err(CalculationFault::InvalidExpression { values: stack.len() })
            },
        }
    }
}

/// An error on a prefix of the tokens is the error on all of them.
pub proof fn lemma_run_prefix_error(tokens: Seq<Seq<char>>, n: int)
    requires
        0 <= n <= tokens.len(),
        run(tokens.take(n)) is Err,
    ensures
        run(tokens) == run(tokens.take(n)),
    decreases tokens.len() - n,
{
    if n < tokens.len() {
        assert(tokens.take(n + 1).drop_last() =~= tokens.take(n));
        lemma_run_prefix_error(tokens, n + 1);
    } else {
        assert(tokens.take(n) =~= tokens);
    }
}

/// `result` is what evaluating `tree` gives: the error that `tree` is, or
/// one of its values.
pub open spec fn calculated<V, N: Fn(&str) -> V, A: Fn(BinaryOperator, V, V) -> V>(
    result: Result<V, CalculationError>,
    tree: Result<Expr, CalculationFault>,
    number: N,
    apply: A,
) -> bool {
    match tree {
        Err(fault) => result matches Err(e) && e@ == fault,
        Ok(t) => result matches Ok(v) && evaluates_to(t, number, apply, v),
    }
}

/// Evaluates a list of postfix tokens on a stack of values.
///
/// A numeral pushes its value; an operator pops two values, the right one
/// first, and pushes what it makes of them. The value that is left at the
/// end is the result.
pub fn perform_calculations<V, N: Fn(&str) -> V, A: Fn(BinaryOperator, V, V) -> V>(
    input: Vec<String>,
    number: &N,
    apply: &A,
) -> (result: Result<V, CalculationError>)
    requires
        reads_numerals(*number),
        applies_operators(*apply),
    ensures
        calculated(result, postfix_tree(views(input@)), *number, *apply),
{
    let ghost tokens = views(input@);
    if input.len() == 0 {
        return Err(CalculationError::EmptyInput);
    }
    if input.len() == 1 {
        let token = input[0].clone();
        return match classify(token.as_str()) {
            TokenKind::Numeral => Ok(number(token.as_str())),
            _ => Err(CalculationError::InvalidNumber { token }),
        };
    }
    if input.len() == 2 {
        return Err(CalculationError::InputTooShort);
    }
    let mut stack: Vec<V> = Vec::new();
    let ghost mut trees: Seq<Expr> = Seq::empty();
    let mut i: usize = 0;
    while i < input.len()
        invariant
            i <= input.len(),
            input.len() > 2,
            tokens == views(input@),
            reads_numerals(*number),
            applies_operators(*apply),
            run(tokens.take(i as int)) == Ok::<Seq<Expr>, CalculationFault>(trees),
            trees.len() == stack.len(),
            forall|k: int|
                0 <= k < trees.len() ==> evaluates_to(
                    #[trigger] trees[k],
                    *number,
                    *apply,
                    stack@[k],
                ),
        decreases input.len() - i,
    {
        let token = input[i].clone();
        proof {
            assert(tokens.take(i + 1).drop_last() =~= tokens.take(i as int));
        }
        match classify(token.as_str()) {
            TokenKind::Numeral => {
                let value = number(token.as_str());
                stack.push(value);
                proof {
                    trees = trees.push(Expr::Operand { text: token@ });
                }
            },
            TokenKind::Operator(info) => {
                let right = match stack.pop() {
                    Some(right) => right,
                    None => {
                        proof {
                            lemma_run_prefix_error(tokens, i + 1);
                        }
                        return Err(CalculationError::NotEnoughOperands);
                    },
                };
                let left = match stack.pop() {
                    Some(left) => left,
                    None => {
                        proof {
                            lemma_run_prefix_error(tokens, i + 1);
                        }
                        return Err(CalculationError::NotEnoughOperands);
                    },
                };
                let value = apply(info.operation, left, right);
                stack.push(value);
                proof {
                    trees = combine(trees, info.operation)->0;
                }
            },
            _ => {
                proof {
                    lemma_run_prefix_error(tokens, i + 1);
                }
                return Err(CalculationError::InvalidNumber { token });
            },
        }
        i += 1;
    }
    proof {
        assert(tokens.take(i as int) =~= tokens);
    }
    if stack.len() != 1 {
        return Err(CalculationError::InvalidExpression { values: stack.len() });
    }
    match stack.pop() {
        Some(value) => Ok(value),
        None => Err(CalculationError::InvalidExpression { values: 0 }),
    }
}

} // verus!
