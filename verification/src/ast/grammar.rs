//! The grammar that the parser reads.
//!
//! An expression is written as an operand, as an expression in parentheses,
//! or as two expressions with an operator between them. Without parentheses
//! an operator takes as its operands what binds more tightly: on the side to
//! which it groups also what binds equally. The parser makes of every
//! expression that is written so the tree that it stands for.

use vstd::prelude::*;
use crate::ast::ast::Expr;
use crate::ast::parse::{
    close_parenthesis, combine, drain, kind_of, parse, push_operator, run, step, Pending, Stacks,
};
use crate::error::SyntaxFault;
use crate::utils::text::all_alphabetic;
use crate::utils::operators::{
    applies_first, row, symbol_of, Associativity, BinaryOperator, OperatorInfo,
};

verus! {

/// An expression as it is written.
pub ghost enum Syntax {
    /// A numeral or a name.
    Operand { token: Seq<char> },
    /// An expression in parentheses.
    Group { inner: Box<Syntax> },
    /// Two expressions with an operator between them.
    Binary { operation: BinaryOperator, lhs: Box<Syntax>, rhs: Box<Syntax> },
}

/// The tokens of a written expression, from left to right.
pub open spec fn written(x: Syntax) -> Seq<Seq<char>>
    decreases x,
{
    match x {
        Syntax::Operand { token } => seq![token],
        Syntax::Group { inner } => (seq![seq!['(']] + written(*inner)).push(seq![')']),
        Syntax::Binary { operation, lhs, rhs } => written(*lhs).push(seq![symbol_of(operation)])
            + written(*rhs),
    }
}

/// The leaf that the parser makes of an operand.
pub open spec fn leaf_of(token: Seq<char>) -> Expr {
    if all_alphabetic(token) {
        Expr::Placeholder { name: token }
    } else {
        Expr::Operand { text: token }
    }
}

/// The tree that a written expression stands for: parentheses leave no
/// trace in it.
pub open spec fn tree_of(x: Syntax) -> Expr
    decreases x,
{
    match x {
        Syntax::Operand { token } => leaf_of(token),
        Syntax::Group { inner } => tree_of(*inner),
        Syntax::Binary { operation, lhs, rhs } => Expr::Binary {
            operation,
            lhs: Box::new(tree_of(*lhs)),
            rhs: Box::new(tree_of(*rhs)),
        },
    }
}

/// The least precedence that the left operand of `operation` may have
/// without parentheses.
pub open spec fn left_floor(operation: BinaryOperator) -> nat {
    if row(operation).associativity == Associativity::Left {
        row(operation).precedence as nat
    } else {
        (row(operation).precedence + 1) as nat
    }
}

/// The least precedence that the right operand of `operation` may have
/// without parentheses.
pub open spec fn right_floor(operation: BinaryOperator) -> nat {
    if row(operation).associativity == Associativity::Left {
        (row(operation).precedence + 1) as nat
    } else {
        row(operation).precedence as nat
    }
}

/// `x` is well written where an operand of precedence `floor` or more is
/// expected: its operands are numerals and names, and an operator without
/// parentheses around it has at least that precedence and operands that are
/// well written for their side.
pub open spec fn is_well_written(x: Syntax, floor: nat) -> bool
    decreases x,
{
    match x {
        Syntax::Operand { token } => kind_of(token) is Numeral || kind_of(token) is Identifier,
        Syntax::Group { inner } => is_well_written(*inner, 0),
        Syntax::Binary { operation, lhs, rhs } => {
            &&& row(operation).precedence >= floor
            &&& is_well_written(*lhs, left_floor(operation))
            &&& is_well_written(*rhs, right_floor(operation))
        },
    }
}

/// The state after the tokens `tokens`, read from the state `s` on.
pub open spec fn run_from(s: Stacks, tokens: Seq<Seq<char>>) -> Result<Stacks, SyntaxFault>
    decreases tokens.len(),
{
    if tokens.len() == 0 {
        Ok(s)
    } else {
        match run_from(s, tokens.drop_last()) {
            Err(e) => Err(e),
            Ok(t) => step(t, tokens.last()),
        }
    }
}

/// The state after every operator above the lowest `n` has been applied.
/// `None` where a parenthesis is in the way or operands are missing.
pub open spec fn settle(s: Stacks, n: nat) -> Option<Stacks>
    decreases s.operators.len(),
{
    if s.operators.len() <= n {
        Some(s)
    } else {
        match s.operators.last() {
            Pending::Parenthesis => None,
            Pending::Operator(top) => match combine(s.output, top.operation) {
                None => None,
                Some(output) => settle(Stacks { output, operators: s.operators.drop_last() }, n),
            },
        }
    }
}

/// The operator `top` stays on the stack when an operator of precedence
/// `floor` or more comes in.
pub open spec fn admits(top: OperatorInfo, floor: nat) -> bool {
    forall|operation: BinaryOperator|
        (#[trigger] row(operation)).precedence >= floor ==> !applies_first(top, row(operation))
}

/// Nothing on the operator stack is applied when an operator of precedence
/// `floor` or more comes in: the stack is empty, or its top is a
/// parenthesis or an operator that stays.
pub open spec fn is_barrier(operators: Seq<Pending>, floor: nat) -> bool {
    operators.len() == 0 || match operators.last() {
        Pending::Parenthesis => true,
        Pending::Operator(top) => admits(top, floor),
    }
}

/// The entries of the operator stack from index `from` up are operators of
/// precedence `floor` or more.
pub open spec fn are_pending(operators: Seq<Pending>, from: int, floor: nat) -> bool {
    forall|i: int|
        from <= i < operators.len() ==> (#[trigger] operators[i] matches Pending::Operator(x)
            && x.precedence >= floor)
}

proof fn lemma_run_is_run_from(tokens: Seq<Seq<char>>)
    ensures
        run(tokens) == run_from(
            Stacks { output: Seq::empty(), operators: Seq::empty() },
            tokens,
        ),
    decreases tokens.len(),
{
    if tokens.len() > 0 {
        lemma_run_is_run_from(tokens.drop_last());
    }
}

proof fn lemma_run_from_append(s: Stacks, a: Seq<Seq<char>>, b: Seq<Seq<char>>)
    ensures
        run_from(s, a + b) == match run_from(s, a) {
            Ok(t) => run_from(t, b),
            Err(e) => Err(e),
        },
    decreases b.len(),
{
    if b.len() > 0 {
        assert((a + b).drop_last() =~= a + b.drop_last());
        lemma_run_from_append(s, a, b.drop_last());
    }
}

proof fn lemma_run_from_one(s: Stacks, token: Seq<char>)
    ensures
        run_from(s, seq![token]) == step(s, token),
{
    let one = seq![token];
    assert(run_from(s, one.drop_last()) == Ok::<Stacks, SyntaxFault>(s));
}

proof fn lemma_run_from_push(s: Stacks, a: Seq<Seq<char>>, token: Seq<char>)
    ensures
        run_from(s, a.push(token)) == match run_from(s, a) {
            Ok(t) => step(t, token),
            Err(e) => Err(e),
        },
{
    assert(a.push(token).drop_last() =~= a);
}

proof fn lemma_settle_operators(s: Stacks, n: nat)
    requires
        s.operators.len() >= n,
    ensures
        settle(s, n) matches Some(t) ==> t.operators == s.operators.take(n as int),
    decreases s.operators.len(),
{
    if s.operators.len() > n {
        if let Pending::Operator(top) = s.operators.last() {
            if let Some(output) = combine(s.output, top.operation) {
                lemma_settle_operators(Stacks { output, operators: s.operators.drop_last() }, n);
            }
        }
    }
}

proof fn lemma_settle_twice(s: Stacks, m: nat, n: nat)
    requires
        n <= m,
        settle(s, m) is Some,
    ensures
        settle(s, n) == settle(settle(s, m)->0, n),
    decreases s.operators.len(),
{
    if s.operators.len() > m {
        if let Pending::Operator(top) = s.operators.last() {
            if let Some(output) = combine(s.output, top.operation) {
                lemma_settle_twice(Stacks { output, operators: s.operators.drop_last() }, m, n);
            }
        }
    }
}

proof fn lemma_push_settled(s: Stacks, n: nat, incoming: OperatorInfo)
    requires
        s.operators.len() >= n,
        forall|i: int|
            n <= i < s.operators.len() ==> (#[trigger] s.operators[i] matches Pending::Operator(x)
                && applies_first(x, incoming)),
        settle(s, n) is Some,
        n > 0 ==> match s.operators[n - 1] {
            Pending::Parenthesis => true,
            Pending::Operator(top) => !applies_first(top, incoming),
        },
    ensures
        push_operator(s, incoming) == Ok::<Stacks, SyntaxFault>(
            Stacks {
                output: settle(s, n)->0.output,
                operators: s.operators.take(n as int).push(Pending::Operator(incoming)),
            },
        ),
    decreases s.operators.len(),
{
    if s.operators.len() == n {
        assert(s.operators.take(n as int) =~= s.operators);
    } else {
        let top = s.operators[s.operators.len() - 1];
        let output = combine(s.output, top->Operator_0.operation)->0;
        let rest = Stacks { output, operators: s.operators.drop_last() };
        assert forall|i: int| n <= i < rest.operators.len() implies (
        #[trigger] rest.operators[i] matches Pending::Operator(x) && applies_first(x, incoming)) by {}
        lemma_push_settled(rest, n, incoming);
        assert(rest.operators.take(n as int) =~= s.operators.take(n as int));
    }
}

proof fn lemma_close_settled(s: Stacks, n: nat)
    requires
        s.operators.len() >= n > 0,
        s.operators[n - 1] is Parenthesis,
        forall|i: int| n <= i < s.operators.len() ==> #[trigger] s.operators[i] is Operator,
        settle(s, n) is Some,
    ensures
        close_parenthesis(s) == Ok::<Stacks, SyntaxFault>(
            Stacks {
                output: settle(s, n)->0.output,
                operators: s.operators.take(n - 1),
            },
        ),
    decreases s.operators.len(),
{
    if s.operators.len() > n {
        let top = s.operators[s.operators.len() - 1];
        let output = combine(s.output, top->Operator_0.operation)->0;
        let rest = Stacks { output, operators: s.operators.drop_last() };
        assert forall|i: int| n <= i < rest.operators.len() implies #[trigger] rest.operators[i]
            is Operator by {}
        lemma_close_settled(rest, n);
        assert(rest.operators.take(n - 1) =~= s.operators.take(n - 1));
    }
}

proof fn lemma_drain_settled(s: Stacks)
    requires
        forall|i: int| 0 <= i < s.operators.len() ==> #[trigger] s.operators[i] is Operator,
        settle(s, 0) is Some,
    ensures
        drain(s) == Ok::<Seq<Expr>, SyntaxFault>(settle(s, 0)->0.output),
    decreases s.operators.len(),
{
    if s.operators.len() > 0 {
        let top = s.operators[s.operators.len() - 1];
        let output = combine(s.output, top->Operator_0.operation)->0;
        let rest = Stacks { output, operators: s.operators.drop_last() };
        assert forall|i: int| 0 <= i < rest.operators.len() implies #[trigger] rest.operators[i]
            is Operator by {}
        lemma_drain_settled(rest);
    }
}

/// What reading a written expression does to the parser's state: its tree
/// comes on top of the output stack, once the operators that it has left
/// pending are applied, and nothing below is touched.
pub open spec fn reads_as(s: Stacks, t: Stacks, tree: Expr, floor: nat) -> bool {
    &&& t.operators.len() >= s.operators.len()
    &&& t.operators.take(s.operators.len() as int) == s.operators
    &&& are_pending(t.operators, s.operators.len() as int, floor)
    &&& settle(t, s.operators.len()) == Some(
        Stacks { output: s.output.push(tree), operators: s.operators },
    )
}

/// The parser reads a well-written expression, from any state in which the
/// operator stack lets it be, as its tree.
pub proof fn lemma_written_is_read(x: Syntax, floor: nat, s: Stacks)
    requires
        is_well_written(x, floor),
        is_barrier(s.operators, floor),
    ensures
        run_from(s, written(x)) matches Ok(t) && reads_as(s, t, tree_of(x), floor),
    decreases x,
{
    let n = s.operators.len() as int;
    match x {
        Syntax::Operand { token } => {
            lemma_run_from_one(s, token);
            let t = run_from(s, written(x))->Ok_0;
            assert(t.operators.take(n) =~= s.operators);
        },
        Syntax::Group { inner } => {
            let open = seq![seq!['(']];
            let s1 = Stacks { output: s.output, operators: s.operators.push(Pending::Parenthesis) };
            lemma_run_from_one(s, seq!['(']);
            lemma_run_from_append(s, open, written(*inner));
            lemma_written_is_read(*inner, 0, s1);
            let t1 = run_from(s1, written(*inner))->Ok_0;
            lemma_run_from_push(s, open + written(*inner), seq![')']);
            assert forall|i: int| n + 1 <= i < t1.operators.len() implies #[trigger] t1.operators[i]
                is Operator by {}
            lemma_close_settled(t1, (n + 1) as nat);
            assert(t1.operators.take(n + 1).take(n) =~= t1.operators.take(n));
            assert(s.operators.push(Pending::Parenthesis).take(n) =~= s.operators);
            let t = run_from(s, written(x))->Ok_0;
            assert(t.operators.take(n) =~= s.operators);
        },
        Syntax::Binary { operation, lhs, rhs } => {
            let symbol = seq![symbol_of(operation)];
            let incoming = row(operation);
            // The left operand.
            assert(is_barrier(s.operators, left_floor(operation))) by {
                if s.operators.len() > 0 {
                    if let Pending::Operator(top) = s.operators.last() {
                        assert forall|other: BinaryOperator|
                            (#[trigger] row(other)).precedence >= left_floor(
                                operation,
                            ) implies !applies_first(top, row(other)) by {}
                    }
                }
            }
            lemma_written_is_read(*lhs, left_floor(operation), s);
            let t1 = run_from(s, written(*lhs))->Ok_0;
            // The operator.
            lemma_run_from_push(s, written(*lhs), symbol);
            assert forall|i: int| n <= i < t1.operators.len() implies (
            #[trigger] t1.operators[i] matches Pending::Operator(x) && applies_first(
                x,
                incoming,
            )) by {}
            lemma_push_settled(t1, n as nat, incoming);
            let s2 = Stacks {
                output: s.output.push(tree_of(*lhs)),
                operators: s.operators.push(Pending::Operator(incoming)),
            };
            // The right operand.
            lemma_run_from_append(s, written(*lhs).push(symbol), written(*rhs));
            lemma_written_is_read(*rhs, right_floor(operation), s2);
            let t = run_from(s2, written(*rhs))->Ok_0;
            assert(t.operators.take(n + 1).take(n) =~= t.operators.take(n));
            assert forall|i: int| n <= i < t.operators.len() implies (
            #[trigger] t.operators[i] matches Pending::Operator(x) && x.precedence >= floor) by {}
            lemma_settle_twice(t, (n + 1) as nat, n as nat);
            let both = s.output.push(tree_of(*lhs)).push(tree_of(*rhs));
            assert(s2.operators.drop_last() =~= s.operators);
            assert(combine(both, operation) == Some(s.output.push(tree_of(x))));
            let settled = Stacks { output: s.output.push(tree_of(x)), operators: s.operators };
            assert(settle(Stacks { output: both, operators: s2.operators }, n as nat) == settle(
                settled,
                n as nat,
            ));
        },
    }
}

/// The parser reads the grammar: of an expression that is well written it
/// makes the tree that the expression stands for. So an operator takes as
/// its operands what binds more tightly, equal operators group to their
/// side, and parentheses override both.
pub proof fn lemma_parser_reads_grammar(x: Syntax)
    requires
        is_well_written(x, 0),
    ensures
        parse(written(x)) == Ok::<Expr, SyntaxFault>(tree_of(x)),
{
    let s = Stacks { output: Seq::empty(), operators: Seq::empty() };
    lemma_run_is_run_from(written(x));
    lemma_written_is_read(x, 0, s);
    let t = run_from(s, written(x))->Ok_0;
    assert forall|i: int| 0 <= i < t.operators.len() implies #[trigger] t.operators[i]
        is Operator by {}
    lemma_drain_settled(t);
}

proof fn lemma_close_unopened(s: Stacks)
    requires
        forall|i: int| 0 <= i < s.operators.len() ==> #[trigger] s.operators[i] is Operator,
        settle(s, 0) is Some,
    ensures
        close_parenthesis(s) == Err::<Stacks, SyntaxFault>(SyntaxFault::MismatchedParentheses),
    decreases s.operators.len(),
{
    if s.operators.len() > 0 {
        let top = s.operators[s.operators.len() - 1];
        let output = combine(s.output, top->Operator_0.operation)->0;
        let rest = Stacks { output, operators: s.operators.drop_last() };
        assert forall|i: int| 0 <= i < rest.operators.len() implies #[trigger] rest.operators[i]
            is Operator by {
            assert(rest.operators[i] == s.operators[i]);
        }
        lemma_close_unopened(rest);
    }
}

proof fn lemma_drain_unclosed(s: Stacks)
    requires
        s.operators.len() >= 1,
        s.operators[0] is Parenthesis,
        forall|i: int| 1 <= i < s.operators.len() ==> #[trigger] s.operators[i] is Operator,
        settle(s, 1) is Some,
    ensures
        drain(s) == Err::<Seq<Expr>, SyntaxFault>(SyntaxFault::MismatchedParentheses),
    decreases s.operators.len(),
{
    if s.operators.len() > 1 {
        let top = s.operators[s.operators.len() - 1];
        let output = combine(s.output, top->Operator_0.operation)->0;
        let rest = Stacks { output, operators: s.operators.drop_last() };
        assert forall|i: int| 1 <= i < rest.operators.len() implies #[trigger] rest.operators[i]
            is Operator by {
            assert(rest.operators[i] == s.operators[i]);
        }
        assert(rest.operators[0] == s.operators[0]);
        lemma_drain_unclosed(rest);
    } else {
        assert(s.operators.last() == s.operators[0]);
    }
}

/// A parenthesis without partner is reported as such: a well-written
/// expression with a closing parenthesis after it, or an opening one before
/// it, has mismatched parentheses.
pub proof fn lemma_lone_parenthesis_is_mismatched(x: Syntax)
    requires
        is_well_written(x, 0),
    ensures
        parse(written(x).push(seq![')'])) == Err::<Expr, SyntaxFault>(
            SyntaxFault::MismatchedParentheses,
        ),
        parse(seq![seq!['(']] + written(x)) == Err::<Expr, SyntaxFault>(
            SyntaxFault::MismatchedParentheses,
        ),
{
    let s = Stacks { output: Seq::empty(), operators: Seq::empty() };
    // The closing parenthesis finds no opening one.
    lemma_written_is_read(x, 0, s);
    let t = run_from(s, written(x))->Ok_0;
    lemma_run_is_run_from(written(x).push(seq![')']));
    lemma_run_from_push(s, written(x), seq![')']);
    assert forall|i: int| 0 <= i < t.operators.len() implies #[trigger] t.operators[i]
        is Operator by {}
    lemma_close_unopened(t);
    // The opening parenthesis is still on the stack at the end.
    let open = seq![seq!['(']];
    let s1 = Stacks { output: s.output, operators: s.operators.push(Pending::Parenthesis) };
    lemma_run_is_run_from(open + written(x));
    lemma_run_from_one(s, seq!['(']);
    lemma_run_from_append(s, open, written(x));
    lemma_written_is_read(x, 0, s1);
    let t1 = run_from(s1, written(x))->Ok_0;
    assert(t1.operators[0] == t1.operators.take(1)[0]);
    assert forall|i: int| 1 <= i < t1.operators.len() implies #[trigger] t1.operators[i]
        is Operator by {}
    lemma_drain_unclosed(t1);
}

} // verus!
