//! The two ways to evaluate an expression agree: the postfix form that the
//! converter makes of the tokens is the tree of the parser, written in
//! postfix order, and the stack machine reads it back as that tree.

use vstd::prelude::*;
use crate::ast::ast::{first_placeholder, Expr};
use crate::ast::parse as trees;
use crate::ast::leaves::{lemma_parse_keeps_operands, leaves, operands};
use crate::ast::parse::{combine, kind_of, Pending, Stacks, TokenKind};
use crate::error::{CalculationFault, Fault, SyntaxFault};
use crate::rpn::calculate as machine;
use crate::rpn::parse as postfix;
use crate::rpn::parse::Queue;
use crate::utils::input::tokenize;
use crate::utils::operators::{symbol_of, BinaryOperator, OperatorInfo};

verus! {

/// The tokens of a tree in postfix order: the left subtree, the right
/// subtree, then the operator.
pub open spec fn postorder(e: Expr) -> Seq<Seq<char>>
    decreases e,
{
    match e {
        Expr::Placeholder { name } => seq![name],
        Expr::Operand { text } => seq![text],
        Expr::Binary { operation, lhs, rhs } => (postorder(*lhs) + postorder(*rhs)).push(
            seq![symbol_of(operation)],
        ),
    }
}

/// The trees of an output stack in postfix order, from the bottom up.
pub open spec fn stack_postorder(output: Seq<Expr>) -> Seq<Seq<char>>
    decreases output.len(),
{
    if output.len() == 0 {
        Seq::empty()
    } else {
        stack_postorder(output.drop_last()) + postorder(output.last())
    }
}

/// Every leaf of the tree is a numeral.
pub open spec fn is_plain(e: Expr) -> bool
    decreases e,
{
    match e {
        Expr::Placeholder { .. } => false,
        Expr::Operand { text } => kind_of(text) is Numeral,
        Expr::Binary { lhs, rhs, .. } => is_plain(*lhs) && is_plain(*rhs),
    }
}

/// No token is a name.
pub open spec fn has_no_name(tokens: Seq<Seq<char>>) -> bool {
    forall|i: int| 0 <= i < tokens.len() ==> !(kind_of(#[trigger] tokens[i]) is Identifier)
}

/// The state of the converter that stands for a state of the parser: the
/// same operator stack, and the output stack in postfix order.
pub open spec fn converted(s: Stacks) -> Queue {
    Queue { output: stack_postorder(s.output), operators: s.operators }
}

/// A postfix form is never empty.
pub proof fn lemma_postorder_nonempty(e: Expr)
    ensures
        postorder(e).len() >= 1,
        e is Binary ==> postorder(e).len() >= 3,
    decreases e,
{
    match e {
        Expr::Binary { operation, lhs, rhs } => {
            lemma_postorder_nonempty(*lhs);
            lemma_postorder_nonempty(*rhs);
        },
        _ => {},
    }
}

/// Applying an operator to the top of the output stack appends its symbol
/// to the postfix form.
pub proof fn lemma_combine_appends_symbol(output: Seq<Expr>, operation: BinaryOperator)
    ensures
        combine(output, operation) matches Some(combined) ==> stack_postorder(combined)
            == stack_postorder(output).push(seq![symbol_of(operation)]),
{
    if output.len() >= 2 {
        let combined = combine(output, operation)->0;
        let rest = output.drop_last().drop_last();
        assert(combined.drop_last() =~= rest);
        assert(stack_postorder(output.drop_last()) == stack_postorder(rest) + postorder(
            output[output.len() - 2],
        ));
    }
}

/// Where the parser pushes an operator, the converter does the same.
pub proof fn lemma_push_operator_agrees(s: Stacks, incoming: OperatorInfo)
    ensures
        trees::push_operator(s, incoming) matches Ok(after) ==> postfix::push_operator(
            converted(s),
            incoming,
        ) == converted(after),
    decreases s.operators.len(),
{
    if s.operators.len() > 0 && (s.operators.last() matches Pending::Operator(top)
        && crate::utils::operators::applies_first(top, incoming)) {
        let operation = s.operators.last()->Operator_0.operation;
        lemma_combine_appends_symbol(s.output, operation);
        if let Some(output) = combine(s.output, operation) {
            lemma_push_operator_agrees(
                Stacks { output, operators: s.operators.drop_last() },
                incoming,
            );
        }
    }
}

/// Where the parser closes a parenthesis, the converter does the same.
pub proof fn lemma_close_parenthesis_agrees(s: Stacks)
    ensures
        trees::close_parenthesis(s) matches Ok(after) ==> postfix::close_parenthesis(converted(s))
            == Ok::<Queue, SyntaxFault>(converted(after)),
    decreases s.operators.len(),
{
    if s.operators.len() > 0 {
        if let Pending::Operator(top) = s.operators.last() {
            lemma_combine_appends_symbol(s.output, top.operation);
            if let Some(output) = combine(s.output, top.operation) {
                lemma_close_parenthesis_agrees(
                    Stacks { output, operators: s.operators.drop_last() },
                );
            }
        }
    }
}

/// Where the parser applies the operators that are left, the converter
/// moves them to its output.
pub proof fn lemma_drain_agrees(s: Stacks)
    ensures
        trees::drain(s) matches Ok(output) ==> postfix::drain(converted(s)) == Ok::<
            Seq<Seq<char>>,
            SyntaxFault,
        >(stack_postorder(output)),
    decreases s.operators.len(),
{
    if s.operators.len() > 0 {
        if let Pending::Operator(top) = s.operators.last() {
            lemma_combine_appends_symbol(s.output, top.operation);
            if let Some(output) = combine(s.output, top.operation) {
                lemma_drain_agrees(Stacks { output, operators: s.operators.drop_last() });
            }
        }
    }
}

/// On tokens without names the converter follows the parser token by token.
pub proof fn lemma_run_agrees(tokens: Seq<Seq<char>>)
    requires
        has_no_name(tokens),
    ensures
        trees::run(tokens) matches Ok(s) ==> postfix::run(tokens) == Ok::<Queue, SyntaxFault>(
            converted(s),
        ),
    decreases tokens.len(),
{
    if tokens.len() > 0 {
        let before = tokens.drop_last();
        assert forall|i: int| 0 <= i < before.len() implies !(kind_of(#[trigger] before[i])
            is Identifier) by {}
        lemma_run_agrees(before);
        if let Ok(s) = trees::run(before) {
            let token = tokens.last();
            match kind_of(token) {
                TokenKind::Numeral => {
                    let leaf = Expr::Operand { text: token };
                    assert(s.output.push(leaf).drop_last() =~= s.output);
                    assert(stack_postorder(s.output.push(leaf)) =~= stack_postorder(
                        s.output,
                    ).push(token));
                },
                TokenKind::Operator(incoming) => {
                    lemma_push_operator_agrees(s, incoming);
                },
                TokenKind::CloseParenthesis => {
                    lemma_close_parenthesis_agrees(s);
                },
                _ => {},
            }
        }
    }
}

/// The converter writes the parser's tree in postfix order: where the
/// tokens hold no name and the parser makes a tree of them, the converter
/// makes the postfix form of that tree.
pub proof fn lemma_converter_writes_tree(tokens: Seq<Seq<char>>)
    requires
        has_no_name(tokens),
    ensures
        trees::parse(tokens) matches Ok(tree) ==> postfix::to_postfix(tokens) == Ok::<
            Seq<Seq<char>>,
            SyntaxFault,
        >(postorder(tree)),
{
    lemma_run_agrees(tokens);
    if let Ok(s) = trees::run(tokens) {
        lemma_drain_agrees(s);
        if let Ok(output) = trees::drain(s) {
            if output.len() == 1 {
                assert(stack_postorder(output.drop_last()) =~= Seq::<Seq<char>>::empty());
            }
        }
    }
}

/// The stack machine reads the postfix form of a plain tree as one more
/// tree on its stack.
pub proof fn lemma_machine_pushes_tree(prefix: Seq<Seq<char>>, tree: Expr)
    requires
        is_plain(tree),
        machine::run(prefix) is Ok,
    ensures
        machine::run(prefix + postorder(tree)) == Ok::<Seq<Expr>, CalculationFault>(
            machine::run(prefix)->Ok_0.push(tree),
        ),
    decreases tree,
{
    let stack = machine::run(prefix)->Ok_0;
    match tree {
        Expr::Operand { text } => {
            let all = prefix + postorder(tree);
            assert(all.drop_last() =~= prefix);
        },
        Expr::Binary { operation, lhs, rhs } => {
            let left = prefix + postorder(*lhs);
            let both = left + postorder(*rhs);
            let all = prefix + postorder(tree);
            lemma_machine_pushes_tree(prefix, *lhs);
            lemma_machine_pushes_tree(left, *rhs);
            assert(all.drop_last() =~= both);
            let grown = stack.push(*lhs).push(*rhs);
            assert(combine(grown, operation) == Some(stack.push(tree)));
        },
        _ => {},
    }
}

/// The stack machine inverts the postfix order: it reads the postfix form
/// of a plain tree as that tree.
pub proof fn lemma_machine_reads_postorder(tree: Expr)
    requires
        is_plain(tree),
    ensures
        machine::postfix_tree(postorder(tree)) == Ok::<Expr, CalculationFault>(tree),
{
    lemma_postorder_nonempty(tree);
    let empty = Seq::<Seq<char>>::empty();
    match tree {
        Expr::Binary { .. } => {
            lemma_machine_pushes_tree(empty, tree);
        },
        _ => {},
    }
}

/// A tree whose leaves are all numerals is plain.
pub proof fn lemma_plain_by_leaves(e: Expr)
    requires
        forall|i: int|
            0 <= i < leaves(e).len() ==> (#[trigger] leaves(e)[i] matches Expr::Operand { text }
                && kind_of(text) is Numeral),
    ensures
        is_plain(e),
    decreases e,
{
    match e {
        Expr::Binary { operation, lhs, rhs } => {
            assert forall|i: int| 0 <= i < leaves(*lhs).len() implies (#[trigger] leaves(
                *lhs,
            )[i] matches Expr::Operand { text } && kind_of(text) is Numeral) by {}
            assert forall|i: int| 0 <= i < leaves(*rhs).len() implies (#[trigger] leaves(
                *rhs,
            )[i] matches Expr::Operand { text } && kind_of(text) is Numeral) by {
                assert(leaves(e)[leaves(*lhs).len() + i] == leaves(*rhs)[i]);
            }
            lemma_plain_by_leaves(*lhs);
            lemma_plain_by_leaves(*rhs);
        },
        _ => {
            assert(leaves(e)[0] == e);
        },
    }
}

/// The operands of tokens without names are numerals.
pub proof fn lemma_operands_are_numerals(tokens: Seq<Seq<char>>)
    requires
        has_no_name(tokens),
    ensures
        forall|i: int|
            0 <= i < operands(tokens).len() ==> (#[trigger] operands(
                tokens,
            )[i] matches Expr::Operand { text } && kind_of(text) is Numeral),
    decreases tokens.len(),
{
    if tokens.len() > 0 {
        let before = tokens.drop_last();
        assert forall|i: int| 0 <= i < before.len() implies !(kind_of(#[trigger] before[i])
            is Identifier) by {}
        lemma_operands_are_numerals(before);
    }
}

/// A name among the tokens is a placeholder among their operands.
pub proof fn lemma_name_is_operand(tokens: Seq<Seq<char>>, i: int)
    requires
        0 <= i < tokens.len(),
        kind_of(tokens[i]) is Identifier,
    ensures
        operands(tokens).contains(Expr::Placeholder { name: tokens[i] }),
    decreases tokens.len(),
{
    let leaf = Expr::Placeholder { name: tokens[i] };
    let before = operands(tokens.drop_last());
    if i == tokens.len() - 1 {
        assert(operands(tokens)[before.len() as int] == leaf);
    } else {
        lemma_name_is_operand(tokens.drop_last(), i);
        let k = choose|k: int| 0 <= k < before.len() && before[k] == leaf;
        assert(operands(tokens)[k] == leaf);
    }
}

/// A tree with a placeholder among its leaves has a leftmost placeholder.
pub proof fn lemma_placeholder_leaf_is_found(e: Expr, leaf: Expr)
    requires
        leaves(e).contains(leaf),
        leaf is Placeholder,
    ensures
        first_placeholder(e) is Some,
    decreases e,
{
    match e {
        Expr::Binary { operation, lhs, rhs } => {
            let i = choose|i: int| 0 <= i < leaves(e).len() && leaves(e)[i] == leaf;
            if i < leaves(*lhs).len() {
                lemma_placeholder_leaf_is_found(*lhs, leaf);
            } else {
                lemma_placeholder_leaf_is_found(*rhs, leaf);
            }
        },
        _ => {},
    }
}

/// The two pipelines agree: an expression that the tree pipeline parses
/// into a tree without placeholders is, to the postfix pipeline, the same
/// tree. So both give it the same values.
pub proof fn lemma_pipelines_agree(input: Seq<char>)
    ensures
        crate::ast::expression(input) matches Ok(tree) ==> (first_placeholder(tree) is None
            ==> crate::rpn::expression(input) == Ok::<Expr, Fault>(tree)),
{
    if let Ok(tokens) = tokenize(input) {
        if let Ok(tree) = trees::parse(tokens) {
            if first_placeholder(tree) is None {
                lemma_parse_keeps_operands(tokens);
                assert forall|i: int| 0 <= i < tokens.len() implies !(kind_of(
                    #[trigger] tokens[i],
                ) is Identifier) by {
                    if kind_of(tokens[i]) is Identifier {
                        lemma_name_is_operand(tokens, i);
                        lemma_placeholder_leaf_is_found(
                            tree,
                            Expr::Placeholder { name: tokens[i] },
                        );
                    }
                }
                lemma_operands_are_numerals(tokens);
                lemma_plain_by_leaves(tree);
                lemma_converter_writes_tree(tokens);
                lemma_machine_reads_postorder(tree);
            }
        }
    }
}

} // verus!
