//! The shunting-yard algorithm with a postfix list of tokens as its output.

use vstd::prelude::*;
use crate::ast::parse::{classify, kind_of, Pending, TokenKind};
use crate::error::{SyntaxError, SyntaxFault};
use crate::utils::operators::{applies_first, symbol_of, BinaryOperator, OperatorInfo};
use crate::utils::text::{lemma_views_push, views};

verus! {

/// The converter's state between two tokens: the postfix tokens so far and
/// the operator stack, with its top at the end.
pub ghost struct Queue {
    pub output: Seq<Seq<char>>,
    pub operators: Seq<Pending>,
}

/// The state after the operator `incoming`: the operators on top of the
/// stack that are applied first move to the output, then `incoming` is
/// pushed.
pub open spec fn push_operator(q: Queue, incoming: OperatorInfo) -> Queue
    decreases q.operators.len(),
{
    if q.operators.len() > 0 && (q.operators.last() matches Pending::Operator(top)
        && applies_first(top, incoming)) {
        push_operator(
            Queue {
                output: q.output.push(seq![symbol_of(q.operators.last()->Operator_0.operation)]),
                operators: q.operators.drop_last(),
            },
            incoming,
        )
    } else {
        Queue { output: q.output, operators: q.operators.push(Pending::Operator(incoming)) }
    }
}

/// The state after a closing parenthesis: the operators above the topmost
/// opening parenthesis move to the output, and that parenthesis is dropped.
pub open spec fn close_parenthesis(q: Queue) -> Result<Queue, SyntaxFault>
    decreases q.operators.len(),
{
    if q.operators.len() == 0 {
        Err(SyntaxFault::MismatchedParentheses)
    } else {
        match q.operators.last() {
            Pending::Parenthesis => Ok(
                Queue { output: q.output, operators: q.operators.drop_last() },
            ),
            Pending::Operator(top) => close_parenthesis(
                Queue {
                    output: q.output.push(seq![symbol_of(top.operation)]),
                    operators: q.operators.drop_last(),
                },
            ),
        }
    }
}

/// The state after one more token. Only numerals are operands here: a name
/// is refused like any other token that the operator table does not hold.
pub open spec fn step(q: Queue, token: Seq<char>) -> Result<Queue, SyntaxFault> {
    match kind_of(token) {
        TokenKind::Numeral => Ok(Queue { output: q.output.push(token), operators: q.operators }),
        TokenKind::Operator(incoming) => Ok(push_operator(q, incoming)),
        TokenKind::OpenParenthesis => Ok(
            Queue { output: q.output, operators: q.operators.push(Pending::Parenthesis) },
        ),
        TokenKind::CloseParenthesis => close_parenthesis(q),
        TokenKind::InvalidNumeral => Err(SyntaxFault::InvalidNumeral { token }),
        TokenKind::Identifier => Err(SyntaxFault::UnknownOperator { symbol: token }),
        TokenKind::Unknown => Err(SyntaxFault::UnknownOperator { symbol: token }),
    }
}

/// The state after the tokens `tokens`, or the first error on the way.
pub open spec fn run(tokens: Seq<Seq<char>>) -> Result<Queue, SyntaxFault>
    decreases tokens.len(),
{
    if tokens.len() == 0 {
        Ok(Queue { output: Seq::empty(), operators: Seq::empty() })
    } else {
        match run(tokens.drop_last()) {
            Err(e) => Err(e),
            Ok(q) => step(q, tokens.last()),
        }
    }
}

/// The output at the end of the input, when every operator that is left has
/// moved to it. An opening parenthesis that is left has no partner.
pub open spec fn drain(q: Queue) -> Result<Seq<Seq<char>>, SyntaxFault>
    decreases q.operators.len(),
{
    if q.operators.len() == 0 {
        Ok(q.output)
    } else {
        match q.operators.last() {
            Pending::Parenthesis => Err(SyntaxFault::MismatchedParentheses),
            Pending::Operator(top) => drain(
                Queue {
                    output: q.output.push(seq![symbol_of(top.operation)]),
                    operators: q.operators.drop_last(),
                },
            ),
        }
    }
}

/// The postfix form of the infix tokens `tokens`, or the error that the
/// conversion stops on.
pub open spec fn to_postfix(tokens: Seq<Seq<char>>) -> Result<Seq<Seq<char>>, SyntaxFault> {
    match run(tokens) {
        Err(e) => Err(e),
        Ok(q) => drain(q),
    }
}

/// An error on a prefix of the tokens is the error on all of them.
pub proof fn lemma_run_prefix_error(tokens: Seq<Seq<char>>, n: int)
    requires
        0 <= n <= tokens.len(),
        run(tokens.take(n)) is Err,
    ensures
        run(tokens) == run(tokens.take(n)),
    decreases tokens.len() - n,
{
    if n < tokens.len() {
        assert(tokens.take(n + 1).drop_last() =~= tokens.take(n));
        lemma_run_prefix_error(tokens, n + 1);
    } else {
        assert(tokens.take(n) =~= tokens);
    }
}

/// The state as the model sees it.
pub open spec fn queue(output: Seq<String>, operators: Seq<Pending>) -> Queue {
    Queue { output: views(output), operators }
}

fn symbol(operation: BinaryOperator) -> (token: String)
    ensures
        token@ == seq![symbol_of(operation)],
{
    let mut token = String::new();
    token.push(
        match operation {
            BinaryOperator::Addition => '+',
            BinaryOperator::Subtraction => '-',
            BinaryOperator::Multiplication => '*',
            BinaryOperator::Division => '/',
            BinaryOperator::Index => '^',
        },
    );
    token
}

fn emit(output: &mut Vec<String>, operation: BinaryOperator)
    ensures
        views(final(output)@) == views(old(output)@).push(seq![symbol_of(operation)]),
{
    let token = symbol(operation);
    output.push(token);
}

fn push_incoming(output: &mut Vec<String>, operators: &mut Vec<Pending>, incoming: OperatorInfo)
    ensures
        queue(final(output)@, final(operators)@) == push_operator(
            queue(old(output)@, old(operators)@),
            incoming,
        ),
{
    loop
        invariant
            push_operator(queue(output@, operators@), incoming) == push_operator(
                queue(old(output)@, old(operators)@),
                incoming,
            ),
        decreases operators.len(),
    {
        if operators.len() == 0 {
            operators.push(Pending::Operator(incoming));
            return ;
        }
        match operators[operators.len() - 1] {
            Pending::Parenthesis => {
                operators.push(Pending::Operator(incoming));
                return ;
            },
            Pending::Operator(top) => {
                if top.applies_before(&incoming) {
                    operators.pop();
                    emit(output, top.operation);
                } else {
                    operators.push(Pending::Operator(incoming));
                    return ;
                }
            },
        }
    }
}

fn close_group(output: &mut Vec<String>, operators: &mut Vec<Pending>) -> (result: Result<
    (),
    SyntaxError,
>)
    ensures
        match result {
            Ok(()) => close_parenthesis(queue(old(output)@, old(operators)@)) == Ok::<
                Queue,
                SyntaxFault,
            >(queue(final(output)@, final(operators)@)),
            Err(e) => close_parenthesis(queue(old(output)@, old(operators)@)) == Err::<
                Queue,
                SyntaxFault,
            >(e@),
        },
{
    loop
        invariant
            close_parenthesis(queue(output@, operators@)) == close_parenthesis(
                queue(old(output)@, old(operators)@),
            ),
        decreases operators.len(),
    {
        match operators.pop() {
            None => { return Err(SyntaxError::MismatchedParentheses); },
            Some(Pending::Parenthesis) => { return Ok(()); },
            Some(Pending::Operator(top)) => {
                emit(output, top.operation);
            },
        }
    }
}

/// Converts the tokens of an infix expression to postfix order with the
/// shunting-yard algorithm: operands keep their order, and each operator
/// comes after its operands.
///
/// Fails on a parenthesis without partner and on a token that is neither a
/// numeral, an operator nor a parenthesis.
pub fn infix_to_postfix(input: Vec<String>) -> (result: Result<Vec<String>, SyntaxError>)
    ensures
        match result {
            Ok(output) => to_postfix(views(input@)) == Ok::<Seq<Seq<char>>, SyntaxFault>(
                views(output@),
            ),
            Err(e) => to_postfix(views(input@)) == Err::<Seq<Seq<char>>, SyntaxFault>(e@),
        },
{
    let ghost tokens = views(input@);
    let mut output: Vec<String> = Vec::new();
    let mut operators: Vec<Pending> = Vec::new();
    let mut i: usize = 0;
    proof {
        assert(views(output@) =~= Seq::<Seq<char>>::empty());
    }
    while i < input.len()
        invariant
            i <= input.len(),
            tokens == views(input@),
            run(tokens.take(i as int)) == Ok::<Queue, SyntaxFault>(queue(output@, operators@)),
        decreases input.len() - i,
    {
        let token = input[i].clone();
        proof {
            assert(tokens.take(i + 1).drop_last() =~= tokens.take(i as int));
        }
        match classify(token.as_str()) {
            TokenKind::Numeral => {
                proof {
                    lemma_views_push(output@, token);
                }
                output.push(token);
            },
            TokenKind::Operator(incoming) => {
                push_incoming(&mut output, &mut operators, incoming);
            },
            TokenKind::OpenParenthesis => {
                operators.push(Pending::Parenthesis);
            },
            TokenKind::CloseParenthesis => {
                match close_group(&mut output, &mut operators) {
                    Ok(()) => {},
                    Err(e) => {
                        proof {
                            lemma_run_prefix_error(tokens, i + 1);
                        }
                        return Err(e);
                    },
                }
            },
            TokenKind::InvalidNumeral => {
                proof {
                    lemma_run_prefix_error(tokens, i + 1);
                }
                return Err(SyntaxError::InvalidNumeral { token });
            },
            TokenKind::Identifier => {
                proof {
                    lemma_run_prefix_error(tokens, i + 1);
                }
                return Err(SyntaxError::UnknownOperator { symbol: token });
            },
            TokenKind::Unknown => {
                proof {
                    lemma_run_prefix_error(tokens, i + 1);
                }
                return Err(SyntaxError::UnknownOperator { symbol: token });
            },
        }
        i += 1;
    }
    proof {
        assert(tokens.take(i as int) =~= tokens);
    }
    let ghost end = queue(output@, operators@);
    loop
        invariant
            drain(queue(output@, operators@)) == drain(end),
            to_postfix(tokens) == drain(end),
            tokens == views(input@),
        decreases operators.len(),
    {
        match operators.pop() {
            None => { return Ok(output); },
            Some(Pending::Parenthesis) => { return Err(SyntaxError::MismatchedParentheses); },
            Some(Pending::Operator(top)) => {
                emit(&mut output, top.operation);
            },
        }
    }
}

} // verus!
