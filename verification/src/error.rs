//! The errors of the library, one type for each stage, and their models.
//!
//! An error carries the offending character, token or name as data. The
//! model of an error (its view) holds the same data with texts as sequences
//! of characters; the contracts speak of the models.

use vstd::prelude::*;

verus! {

/// The tokenizer met a character that no token can hold.
#[derive(Debug, Clone, Copy, PartialEq, Eq, Structural)]
pub struct TokenizationError {
    pub character: char,
}

/// The parser could not build one tree from the tokens.
#[derive(Debug, PartialEq, Eq)]
pub enum SyntaxError {
    /// A parenthesis has no partner.
    MismatchedParentheses,
    /// An operator found fewer than two operands to combine.
    NotEnoughOperands,
    /// At the end of the input `values` trees are left where one is expected.
    InvalidExpression { values: usize },
    /// A token made of digits and decimal points that denotes no number.
    InvalidNumeral { token: String },
    /// A token that is neither an operand nor a parenthesis, and that the
    /// operator table does not hold.
    UnknownOperator { symbol: String },
}

/// Model of a [`SyntaxError`].
pub ghost enum SyntaxFault {
    MismatchedParentheses,
    NotEnoughOperands,
    InvalidExpression { values: nat },
    InvalidNumeral { token: Seq<char> },
    UnknownOperator { symbol: Seq<char> },
}

impl View for SyntaxError {
    type V = SyntaxFault;

    open spec fn view(&self) -> SyntaxFault {
        match self {
            SyntaxError::MismatchedParentheses => SyntaxFault::MismatchedParentheses,
            SyntaxError::NotEnoughOperands => SyntaxFault::NotEnoughOperands,
            SyntaxError::InvalidExpression { values } => SyntaxFault::InvalidExpression {
                values: *values as nat,
            },
            SyntaxError::InvalidNumeral { token } => SyntaxFault::InvalidNumeral { token: token@ },
            SyntaxError::UnknownOperator { symbol } => SyntaxFault::UnknownOperator {
                symbol: symbol@,
            },
        }
    }
}

/// A tree could not be evaluated.
#[derive(Debug, PartialEq, Eq)]
pub enum EvaluationError {
    /// The tree holds a placeholder, here the leftmost one.
    UnresolvedPlaceholder { name: String },
}

/// Model of an [`EvaluationError`].
pub ghost enum EvaluationFault {
    UnresolvedPlaceholder { name: Seq<char> },
}

impl View for EvaluationError {
    type V = EvaluationFault;

    open spec fn view(&self) -> EvaluationFault {
        match self {
            EvaluationError::UnresolvedPlaceholder { name } => {
                EvaluationFault::UnresolvedPlaceholder { name: name@ }
            },
        }
    }
}

/// A function could not be called.
#[derive(Debug, PartialEq, Eq)]
pub enum CallError {
    /// No function of that name is defined.
    UndefinedFunction { name: String },
    /// The call gives `found` arguments to a function of `expected` parameters.
    ArityMismatch { expected: usize, found: usize },
    /// The template names a placeholder that no argument is bound to.
    MissingArgument { name: String },
    /// The argument bound to `name` denotes no number.
    ArgumentParseError { name: String, text: String },
}

/// Model of a [`CallError`].
pub ghost enum CallFault {
    UndefinedFunction { name: Seq<char> },
    ArityMismatch { expected: nat, found: nat },
    MissingArgument { name: Seq<char> },
    ArgumentParseError { name: Seq<char>, text: Seq<char> },
}

impl View for CallError {
    type V = CallFault;

    open spec fn view(&self) -> CallFault {
        match self {
            CallError::UndefinedFunction { name } => CallFault::UndefinedFunction { name: name@ },
            CallError::ArityMismatch { expected, found } => CallFault::ArityMismatch {
                expected: *expected as nat,
                found: *found as nat,
            },
            CallError::MissingArgument { name } => CallFault::MissingArgument { name: name@ },
            CallError::ArgumentParseError { name, text } => CallFault::ArgumentParseError {
                name: name@,
                text: text@,
            },
        }
    }
}

/// A line is no function definition.
#[derive(Debug, PartialEq, Eq)]
pub enum DefinitionError {
    /// The keyword `fn` does not occur.
    MissingKeyword,
    /// No `(` follows the keyword.
    MissingOpenParenthesis,
    /// No `)` follows the `(`.
    MissingCloseParenthesis,
    /// No `{` follows the `)`.
    MissingOpenBrace,
    /// No `}` follows the `{`.
    MissingCloseBrace,
    /// The body holds a character that no token can hold.
    Tokenization(TokenizationError),
    /// The body is no expression.
    Syntax(SyntaxError),
}

/// Model of a [`DefinitionError`].
pub ghost enum DefinitionFault {
    MissingKeyword,
    MissingOpenParenthesis,
    MissingCloseParenthesis,
    MissingOpenBrace,
    MissingCloseBrace,
    Tokenization(TokenizationError),
    Syntax(SyntaxFault),
}

impl View for DefinitionError {
    type V = DefinitionFault;

    open spec fn view(&self) -> DefinitionFault {
        match self {
            DefinitionError::MissingKeyword => DefinitionFault::MissingKeyword,
            DefinitionError::MissingOpenParenthesis => DefinitionFault::MissingOpenParenthesis,
            DefinitionError::MissingCloseParenthesis => DefinitionFault::MissingCloseParenthesis,
            DefinitionError::MissingOpenBrace => DefinitionFault::MissingOpenBrace,
            DefinitionError::MissingCloseBrace => DefinitionFault::MissingCloseBrace,
            DefinitionError::Tokenization(e) => DefinitionFault::Tokenization(*e),
            DefinitionError::Syntax(e) => DefinitionFault::Syntax(e@),
        }
    }
}

/// A list of postfix tokens could not be evaluated.
#[derive(Debug, PartialEq, Eq)]
pub enum CalculationError {
    /// There is no token.
    EmptyInput,
    /// There are two tokens, which is too few for an operation and too many
    /// for a number.
    InputTooShort,
    /// A token that stands for a number denotes none.
    InvalidNumber { token: String },
    /// An operator found fewer than two values to combine.
    NotEnoughOperands,
    /// At the end of the input `values` values are left where one is
    /// expected.
    InvalidExpression { values: usize },
}

/// Model of a [`CalculationError`].
pub ghost enum CalculationFault {
    EmptyInput,
    InputTooShort,
    InvalidNumber { token: Seq<char> },
    NotEnoughOperands,
    InvalidExpression { values: nat },
}

impl View for CalculationError {
    type V = CalculationFault;

    open spec fn view(&self) -> CalculationFault {
        match self {
            CalculationError::EmptyInput => CalculationFault::EmptyInput,
            CalculationError::InputTooShort => CalculationFault::InputTooShort,
            CalculationError::InvalidNumber { token } => CalculationFault::InvalidNumber {
                token: token@,
            },
            CalculationError::NotEnoughOperands => CalculationFault::NotEnoughOperands,
            CalculationError::InvalidExpression { values } => CalculationFault::InvalidExpression {
                values: *values as nat,
            },
        }
    }
}

/// Any error of the library, by the stage that raised it.
#[derive(Debug, PartialEq, Eq)]
pub enum Error {
    Tokenization(TokenizationError),
    Syntax(SyntaxError),
    Definition(DefinitionError),
    Call(CallError),
    Evaluation(EvaluationError),
    Calculation(CalculationError),
}

/// Model of an [`Error`].
pub ghost enum Fault {
    Tokenization(TokenizationError),
    Syntax(SyntaxFault),
    Definition(DefinitionFault),
    Call(CallFault),
    Evaluation(EvaluationFault),
    Calculation(CalculationFault),
}

impl View for Error {
    type V = Fault;

    open spec fn view(&self) -> Fault {
        match self {
            Error::Tokenization(e) => Fault::Tokenization(*e),
            Error::Syntax(e) => Fault::Syntax(e@),
            Error::Definition(e) => Fault::Definition(e@),
            Error::Call(e) => Fault::Call(e@),
            Error::Evaluation(e) => Fault::Evaluation(e@),
            Error::Calculation(e) => Fault::Calculation(e@),
        }
    }
}

} // verus!
