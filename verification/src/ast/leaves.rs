//! What the parser keeps of its input: the operands, in their order.

use vstd::prelude::*;
use crate::ast::ast::{first_placeholder, Expr};
use crate::ast::parse::{
    close_parenthesis, combine, drain, kind_of, parse, push_operator, run, Pending, Stacks,
    TokenKind,
};
use crate::utils::operators::{applies_first, BinaryOperator, OperatorInfo};

verus! {

/// The leaves of a tree, from left to right.
pub open spec fn leaves(e: Expr) -> Seq<Expr>
    decreases e,
{
    match e {
        Expr::Binary { lhs, rhs, .. } => leaves(*lhs) + leaves(*rhs),
        _ => seq![e],
    }
}

/// The leaves of the trees of an output stack, from the bottom up and in
/// each tree from left to right.
pub open spec fn stack_leaves(output: Seq<Expr>) -> Seq<Expr>
    decreases output.len(),
{
    if output.len() == 0 {
        Seq::empty()
    } else {
        stack_leaves(output.drop_last()) + leaves(output.last())
    }
}

/// The operands among `tokens`, in order, each as the leaf that the parser
/// makes of it.
pub open spec fn operands(tokens: Seq<Seq<char>>) -> Seq<Expr>
    decreases tokens.len(),
{
    if tokens.len() == 0 {
        Seq::empty()
    } else {
        let before = operands(tokens.drop_last());
        match kind_of(tokens.last()) {
            TokenKind::Numeral => before.push(Expr::Operand { text: tokens.last() }),
            TokenKind::Identifier => before.push(Expr::Placeholder { name: tokens.last() }),
            _ => before,
        }
    }
}

/// Applying an operator to the top of the output stack keeps the leaves.
pub proof fn lemma_combine_keeps_leaves(output: Seq<Expr>, operation: BinaryOperator)
    ensures
        combine(output, operation) matches Some(combined) ==> stack_leaves(combined)
            == stack_leaves(output),
{
    if output.len() >= 2 {
        let combined = combine(output, operation)->0;
        let rest = output.drop_last().drop_last();
        assert(combined.drop_last() =~= rest);
        assert(stack_leaves(output.drop_last()) == stack_leaves(rest) + leaves(
            output[output.len() - 2],
        ));
    }
}

/// Pushing an operator keeps the leaves of the output stack.
pub proof fn lemma_push_operator_keeps_leaves(s: Stacks, incoming: OperatorInfo)
    ensures
        push_operator(s, incoming) matches Ok(after) ==> stack_leaves(after.output)
            == stack_leaves(s.output),
    decreases s.operators.len(),
{
    if s.operators.len() > 0 && (s.operators.last() matches Pending::Operator(top)
        && applies_first(top, incoming)) {
        let operation = s.operators.last()->Operator_0.operation;
        lemma_combine_keeps_leaves(s.output, operation);
        if let Some(output) = combine(s.output, operation) {
            lemma_push_operator_keeps_leaves(
                Stacks { output, operators: s.operators.drop_last() },
                incoming,
            );
        }
    }
}

/// Closing a parenthesis keeps the leaves of the output stack.
pub proof fn lemma_close_parenthesis_keeps_leaves(s: Stacks)
    ensures
        close_parenthesis(s) matches Ok(after) ==> stack_leaves(after.output) == stack_leaves(
            s.output,
        ),
    decreases s.operators.len(),
{
    if s.operators.len() > 0 {
        if let Pending::Operator(top) = s.operators.last() {
            lemma_combine_keeps_leaves(s.output, top.operation);
            if let Some(output) = combine(s.output, top.operation) {
                lemma_close_parenthesis_keeps_leaves(
                    Stacks { output, operators: s.operators.drop_last() },
                );
            }
        }
    }
}

/// Applying the operators that are left keeps the leaves of the output
/// stack.
pub proof fn lemma_drain_keeps_leaves(s: Stacks)
    ensures
        drain(s) matches Ok(output) ==> stack_leaves(output) == stack_leaves(s.output),
    decreases s.operators.len(),
{
    if s.operators.len() > 0 {
        if let Pending::Operator(top) = s.operators.last() {
            lemma_combine_keeps_leaves(s.output, top.operation);
            if let Some(output) = combine(s.output, top.operation) {
                lemma_drain_keeps_leaves(Stacks { output, operators: s.operators.drop_last() });
            }
        }
    }
}

/// After any number of tokens the leaves of the output stack are the
/// operands read so far.
pub proof fn lemma_run_keeps_operands(tokens: Seq<Seq<char>>)
    ensures
        run(tokens) matches Ok(s) ==> stack_leaves(s.output) == operands(tokens),
    decreases tokens.len(),
{
    if tokens.len() > 0 {
        lemma_run_keeps_operands(tokens.drop_last());
        if let Ok(s) = run(tokens.drop_last()) {
            let token = tokens.last();
            match kind_of(token) {
                TokenKind::Numeral => {
                    let leaf = Expr::Operand { text: token };
                    assert(s.output.push(leaf).drop_last() =~= s.output);
                },
                TokenKind::Identifier => {
                    let leaf = Expr::Placeholder { name: token };
                    assert(s.output.push(leaf).drop_last() =~= s.output);
                },
                TokenKind::Operator(incoming) => {
                    lemma_push_operator_keeps_leaves(s, incoming);
                },
                TokenKind::CloseParenthesis => {
                    lemma_close_parenthesis_keeps_leaves(s);
                },
                _ => {},
            }
        }
    }
}

/// The parser keeps the operands and their order: the leaves of the tree,
/// from left to right, are the numerals and names among the tokens. No leaf
/// is made up and none is lost, whatever the operators and parentheses.
pub proof fn lemma_parse_keeps_operands(tokens: Seq<Seq<char>>)
    ensures
        parse(tokens) matches Ok(tree) ==> leaves(tree) == operands(tokens),
{
    lemma_run_keeps_operands(tokens);
    if let Ok(s) = run(tokens) {
        lemma_drain_keeps_leaves(s);
        if let Ok(output) = drain(s) {
            if output.len() == 1 {
                assert(stack_leaves(output.drop_last()) =~= Seq::<Expr>::empty());
            }
        }
    }
}

/// The leftmost placeholder of a tree is one of its leaves.
pub proof fn lemma_first_placeholder_is_leaf(e: Expr)
    ensures
        first_placeholder(e) matches Some(name) ==> leaves(e).contains(
            Expr::Placeholder { name },
        ),
    decreases e,
{
    match e {
        Expr::Binary { operation, lhs, rhs } => {
            lemma_first_placeholder_is_leaf(*lhs);
            lemma_first_placeholder_is_leaf(*rhs);
            if let Some(name) = first_placeholder(*lhs) {
                let leaf = Expr::Placeholder { name };
                let i = choose|i: int| 0 <= i < leaves(*lhs).len() && leaves(*lhs)[i] == leaf;
                assert(leaves(e)[i] == leaf);
            } else if let Some(name) = first_placeholder(*rhs) {
                let leaf = Expr::Placeholder { name };
                let i = choose|i: int| 0 <= i < leaves(*rhs).len() && leaves(*rhs)[i] == leaf;
                assert(leaves(e)[leaves(*lhs).len() + i] == leaf);
            }
        },
        Expr::Placeholder { name } => {
            assert(leaves(e)[0] == e);
        },
        _ => {},
    }
}

/// A placeholder among the operands of `tokens` is one of the tokens, and a
/// name.
pub proof fn lemma_operands_placeholder(tokens: Seq<Seq<char>>, name: Seq<char>)
    requires
        operands(tokens).contains(Expr::Placeholder { name }),
    ensures
        tokens.contains(name),
        kind_of(name) is Identifier,
    decreases tokens.len(),
{
    let leaf = Expr::Placeholder { name };
    if tokens.len() > 0 {
        let before = operands(tokens.drop_last());
        let i = choose|i: int| 0 <= i < operands(tokens).len() && operands(tokens)[i] == leaf;
        if i < before.len() {
            lemma_operands_placeholder(tokens.drop_last(), name);
        }
    }
}

/// The tree of a plain expression holds no placeholder: where no token is a
/// name, the parser makes none. In general the leftmost placeholder of a
/// parsed tree, like every other, is a name among the tokens.
pub proof fn lemma_placeholders_are_names(tokens: Seq<Seq<char>>)
    ensures
        parse(tokens) matches Ok(tree) ==> (first_placeholder(tree) matches Some(name)
            ==> tokens.contains(name) && kind_of(name) is Identifier),
{
    lemma_parse_keeps_operands(tokens);
    if let Ok(tree) = parse(tokens) {
        lemma_first_placeholder_is_leaf(tree);
        if let Some(name) = first_placeholder(tree) {
            lemma_operands_placeholder(tokens, name);
        }
    }
}

} // verus!
