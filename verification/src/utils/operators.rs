//! The operator table: the five binary operators with their precedence and
//! associativity.

use vstd::prelude::*;

verus! {

/// What a binary operator does to its two operands.
#[derive(Debug, Clone, PartialEq, Eq, Copy, Structural)]
pub enum BinaryOperator {
    Addition,
    Subtraction,
    Multiplication,
    Division,
    Index,
}

/// How operators of equal precedence group.
#[derive(PartialEq, Eq, Debug, Clone, Copy, Structural)]
pub enum Associativity {
    Left,
    Right,
}

/// One row of the operator table.
#[derive(Debug, Clone, Copy)]
pub struct OperatorInfo {
    pub operation: BinaryOperator,
    pub precedence: u8,
    pub associativity: Associativity,
}

/// The row of the operator written as the single character `c`, if any.
pub open spec fn operator_of_char(c: char) -> Option<OperatorInfo> {
    if c == '^' {
        Some(
            OperatorInfo {
                operation: BinaryOperator::Index,
                precedence: 4,
                associativity: Associativity::Right,
            },
        )
    } else if c == '*' {
        Some(
            OperatorInfo {
                operation: BinaryOperator::Multiplication,
                precedence: 3,
                associativity: Associativity::Left,
            },
        )
    } else if c == '/' {
        Some(
            OperatorInfo {
                operation: BinaryOperator::Division,
                precedence: 3,
                associativity: Associativity::Left,
            },
        )
    } else if c == '+' {
        Some(
            OperatorInfo {
                operation: BinaryOperator::Addition,
                precedence: 2,
                associativity: Associativity::Left,
            },
        )
    } else if c == '-' {
        Some(
            OperatorInfo {
                operation: BinaryOperator::Subtraction,
                precedence: 2,
                associativity: Associativity::Left,
            },
        )
    } else {
        None
    }
}

/// The operator table as a function of the symbol's text: a symbol is an
/// operator exactly when it is one of the five single characters.
pub open spec fn operator_table(symbol: Seq<char>) -> Option<OperatorInfo> {
    if symbol.len() == 1 {
        operator_of_char(symbol[0])
    } else {
        None
    }
}

/// The character that an operator is written as.
pub open spec fn symbol_of(operation: BinaryOperator) -> char {
    match operation {
        BinaryOperator::Addition => '+',
        BinaryOperator::Subtraction => '-',
        BinaryOperator::Multiplication => '*',
        BinaryOperator::Division => '/',
        BinaryOperator::Index => '^',
    }
}

/// The row of an operator in the table.
pub open spec fn row(operation: BinaryOperator) -> OperatorInfo {
    operator_of_char(symbol_of(operation))->0
}

/// The table has one row for each operator, under its symbol.
pub proof fn lemma_table_rows(c: char)
    ensures
        operator_of_char(c) matches Some(info) ==> symbol_of(info.operation) == c && row(
            info.operation,
        ) == info,
{
}

/// Looks up one character in the operator table.
pub fn operator_for(c: char) -> (info: Option<&'static OperatorInfo>)
    ensures
        match info {
            Some(row) => operator_of_char(c) == Some(*row),
            None => operator_of_char(c) is None,
        },
{
    match c {
        '^' => Some(
            &OperatorInfo {
                operation: BinaryOperator::Index,
                precedence: 4,
                associativity: Associativity::Right,
            },
        ),
        '*' => Some(
            &OperatorInfo {
                operation: BinaryOperator::Multiplication,
                precedence: 3,
                associativity: Associativity::Left,
            },
        ),
        '/' => Some(
            &OperatorInfo {
                operation: BinaryOperator::Division,
                precedence: 3,
                associativity: Associativity::Left,
            },
        ),
        '+' => Some(
            &OperatorInfo {
                operation: BinaryOperator::Addition,
                precedence: 2,
                associativity: Associativity::Left,
            },
        ),
        '-' => Some(
            &OperatorInfo {
                operation: BinaryOperator::Subtraction,
                precedence: 2,
                associativity: Associativity::Left,
            },
        ),
        _ => None,
    }
}

/// Looks up an operator symbol. Returns its row, or `None` when the symbol is
/// not an operator.
pub fn get_operator_info(symbol: &str) -> (info: Option<&'static OperatorInfo>)
    ensures
        match info {
            Some(row) => operator_table(symbol@) == Some(*row),
            None => operator_table(symbol@) is None,
        },
{
    if symbol.unicode_len() == 1 {
        operator_for(symbol.get_char(0))
    } else {
        None
    }
}

/// The operator `on_stack` is applied before the incoming operator
/// `incoming` is pushed: it has the greater precedence, or the same and
/// `incoming` groups to the left.
pub open spec fn applies_first(on_stack: OperatorInfo, incoming: OperatorInfo) -> bool {
    on_stack.precedence > incoming.precedence || (on_stack.precedence == incoming.precedence
        && incoming.associativity == Associativity::Left)
}

impl OperatorInfo {
    /// Whether this operator, on top of the operator stack, is applied
    /// before `incoming` is pushed.
    pub fn applies_before(&self, incoming: &OperatorInfo) -> (b: bool)
        ensures
            b == applies_first(*self, *incoming),
    {
        self.precedence > incoming.precedence || (self.precedence == incoming.precedence
            && matches!(incoming.associativity, Associativity::Left))
    }
}

} // verus!
