//! The shunting-yard parser, which builds a tree from tokens, and the parser
//! of function definitions.

use vstd::prelude::*;
use vstd::slice::slice_subrange;
use crate::ast::ast::{
    AbstractNode, ArgumentDefinition, Expr, Function, FunctionExpr, Parameter,
};
use crate::error::{DefinitionError, DefinitionFault, SyntaxError, SyntaxFault};
use crate::utils::input::{tokenize, tokenize_chars};
use crate::utils::numeral::{is_float, is_float_text, Numeral};
use crate::utils::operators::{
    applies_first, get_operator_info, operator_table, BinaryOperator, OperatorInfo,
};
use crate::utils::text::{
    all_alphabetic, digit, find, find_from, is_digit, lemma_find_from,
    lemma_views_push, only_letters, remove_char, single, split, split_at, to_chars, to_text, views,
    without,
};

verus! {

/// What a token is to the parser.
#[derive(Debug, Clone, Copy)]
pub enum TokenKind {
    /// Letters only: the name of a parameter.
    Identifier,
    /// A text that denotes a number and does not consist of letters only.
    Numeral,
    /// A symbol of the operator table, with its row.
    Operator(OperatorInfo),
    OpenParenthesis,
    CloseParenthesis,
    /// Digits and decimal points that denote no number.
    InvalidNumeral,
    /// Anything else.
    Unknown,
}

/// Digits and decimal points only, and at least one of them.
pub open spec fn is_numeral_shaped(token: Seq<char>) -> bool {
    token.len() > 0 && forall|i: int|
        0 <= i < token.len() ==> is_digit(#[trigger] token[i]) || token[i] == '.'
}

/// The kind of a token. A token of letters only is a name, whatever it
/// spells: `inf` and `nan` are names, not numerals.
pub open spec fn kind_of(token: Seq<char>) -> TokenKind {
    if all_alphabetic(token) {
        TokenKind::Identifier
    } else if is_float_text(token) {
        TokenKind::Numeral
    } else if operator_table(token) is Some {
        TokenKind::Operator(operator_table(token)->0)
    } else if token == seq!['('] {
        TokenKind::OpenParenthesis
    } else if token == seq![')'] {
        TokenKind::CloseParenthesis
    } else if is_numeral_shaped(token) {
        TokenKind::InvalidNumeral
    } else {
        TokenKind::Unknown
    }
}

/// An entry of the operator stack.
#[derive(Debug, Clone, Copy)]
pub enum Pending {
    /// An opening parenthesis that awaits its partner.
    Parenthesis,
    /// An operator that awaits its right operand.
    Operator(OperatorInfo),
}

/// The parser's state between two tokens: the output stack of trees and the
/// operator stack, each with its top at the end.
pub ghost struct Stacks {
    pub output: Seq<Expr>,
    pub operators: Seq<Pending>,
}

/// The output stack after its two topmost trees have become the operands of
/// `operation`, the topmost one on the right. `None` where it holds fewer
/// than two trees.
pub open spec fn combine(output: Seq<Expr>, operation: BinaryOperator) -> Option<Seq<Expr>> {
    if output.len() < 2 {
        None
    } else {
        Some(
            output.drop_last().drop_last().push(
                Expr::Binary {
                    operation,
                    lhs: Box::new(output[output.len() - 2]),
                    rhs: Box::new(output[output.len() - 1]),
                },
            ),
        )
    }
}

/// The state after the operator `incoming`: the operators on top of the
/// stack that are applied first are applied, then `incoming` is pushed.
pub open spec fn push_operator(s: Stacks, incoming: OperatorInfo) -> Result<Stacks, SyntaxFault>
    decreases s.operators.len(),
{
    if s.operators.len() > 0 && (s.operators.last() matches Pending::Operator(top)
        && applies_first(top, incoming)) {
        match combine(s.output, s.operators.last()->Operator_0.operation) {
            None => Err(SyntaxFault::NotEnoughOperands),
            Some(output) => push_operator(
                Stacks { output, operators: s.operators.drop_last() },
                incoming,
            ),
        }
    } else {
        Ok(Stacks { output: s.output, operators: s.operators.push(Pending::Operator(incoming)) })
    }
}

/// The state after a closing parenthesis: the operators above the topmost
/// opening parenthesis are applied, and that parenthesis is dropped.
pub open spec fn close_parenthesis(s: Stacks) -> Result<Stacks, SyntaxFault>
    decreases s.operators.len(),
{
    if s.operators.len() == 0 {
        Err(SyntaxFault::MismatchedParentheses)
    } else {
        match s.operators.last() {
            Pending::Parenthesis => Ok(
                Stacks { output: s.output, operators: s.operators.drop_last() },
            ),
            Pending::Operator(top) => match combine(s.output, top.operation) {
                None => Err(SyntaxFault::NotEnoughOperands),
                Some(output) => close_parenthesis(
                    Stacks { output, operators: s.operators.drop_last() },
                ),
            },
        }
    }
}

/// The state after one more token.
pub open spec fn step(s: Stacks, token: Seq<char>) -> Result<Stacks, SyntaxFault> {
    match kind_of(token) {
        TokenKind::Numeral => Ok(
            Stacks { output: s.output.push(Expr::Operand { text: token }), operators: s.operators },
        ),
        TokenKind::Identifier => Ok(
            Stacks {
                output: s.output.push(Expr::Placeholder { name: token }),
                operators: s.operators,
            },
        ),
        TokenKind::Operator(incoming) => push_operator(s, incoming),
        TokenKind::OpenParenthesis => Ok(
            Stacks { output: s.output, operators: s.operators.push(Pending::Parenthesis) },
        ),
        TokenKind::CloseParenthesis => close_parenthesis(s),
        TokenKind::InvalidNumeral => Err(SyntaxFault::InvalidNumeral { token }),
        TokenKind::Unknown => Err(SyntaxFault::UnknownOperator { symbol: token }),
    }
}

/// The state after the tokens `tokens`, or the first error on the way.
pub open spec fn run(tokens: Seq<Seq<char>>) -> Result<Stacks, SyntaxFault>
    decreases tokens.len(),
{
    if tokens.len() == 0 {
        Ok(Stacks { output: Seq::empty(), operators: Seq::empty() })
    } else {
        match run(tokens.drop_last()) {
            Err(e) => Err(e),
            Ok(s) => step(s, tokens.last()),
        }
    }
}

/// The output stack at the end of the input, when every operator that is
/// left has been applied. An opening parenthesis that is left has no
/// partner.
pub open spec fn drain(s: Stacks) -> Result<Seq<Expr>, SyntaxFault>
    decreases s.operators.len(),
{
    if s.operators.len() == 0 {
        Ok(s.output)
    } else {
        match s.operators.last() {
            Pending::Parenthesis => Err(SyntaxFault::MismatchedParentheses),
            Pending::Operator(top) => match combine(s.output, top.operation) {
                None => Err(SyntaxFault::NotEnoughOperands),
                Some(output) => drain(Stacks { output, operators: s.operators.drop_last() }),
            },
        }
    }
}

/// The tree that the shunting-yard algorithm builds from `tokens`, or the
/// error it stops on.
pub open spec fn parse(tokens: Seq<Seq<char>>) -> Result<Expr, SyntaxFault> {
    match run(tokens) {
        Err(e) => Err(e),
        Ok(s) => match drain(s) {
            Err(e) => Err(e),
            Ok(output) => if output.len() == 1 {
                Ok(output[0])
            } else {
                Err(SyntaxFault::InvalidExpression { values: output.len() })
            },
        },
    }
}

/// An error on a prefix of the tokens is the error on all of them.
pub proof fn lemma_run_prefix_error(tokens: Seq<Seq<char>>, n: int)
    requires
        0 <= n <= tokens.len(),
        run(tokens.take(n)) is Err,
    ensures
        run(tokens) == run(tokens.take(n)),
    decreases tokens.len() - n,
{
    if n < tokens.len() {
        assert(tokens.take(n + 1).drop_last() =~= tokens.take(n));
        lemma_run_prefix_error(tokens, n + 1);
    } else {
        assert(tokens.take(n) =~= tokens);
    }
}

fn numeral_shaped(token: &[char]) -> (b: bool)
    ensures
        b == is_numeral_shaped(token@),
{
    if token.len() == 0 {
        return false;
    }
    let mut i: usize = 0;
    while i < token.len()
        invariant
            i <= token.len(),
            forall|k: int| 0 <= k < i ==> is_digit(#[trigger] token@[k]) || token@[k] == '.',
        decreases token.len() - i,
    {
        if !(digit(token[i]) || token[i] == '.') {
            return false;
        }
        i += 1;
    }
    true
}

/// Tells what kind of token `token` is.
pub fn classify(token: &str) -> (kind: TokenKind)
    ensures
        kind == kind_of(token@),
{
    let chars = to_chars(token);
    let s = chars.as_slice();
    if only_letters(s) {
        return TokenKind::Identifier;
    }
    if is_float(s) {
        return TokenKind::Numeral;
    }
    if let Some(info) = get_operator_info(token) {
        return TokenKind::Operator(*info);
    }
    if s.len() == 1 {
        assert(s@ =~= seq![s@[0]]);
        if s[0] == '(' {
            return TokenKind::OpenParenthesis;
        }
        if s[0] == ')' {
            return TokenKind::CloseParenthesis;
        }
    }
    if numeral_shaped(s) {
        TokenKind::InvalidNumeral
    } else {
        TokenKind::Unknown
    }
}

fn apply_top(output: &mut Vec<AbstractNode>, operation: BinaryOperator) -> (result: Result<
    (),
    SyntaxError,
>)
    ensures
        match result {
            Ok(()) => combine(views(old(output)@), operation) == Some(views(final(output)@)),
            Err(e) => combine(views(old(output)@), operation) is None && e@
                == SyntaxFault::NotEnoughOperands,
        },
{
    let right = match output.pop() {
        Some(right) => right,
        None => { return Err(SyntaxError::NotEnoughOperands); },
    };
    let left = match output.pop() {
        Some(left) => left,
        None => { return Err(SyntaxError::NotEnoughOperands); },
    };
    let node = AbstractNode::BinaryExpr { operation, lhs: Box::new(left), rhs: Box::new(right) };
    output.push(node);
    Ok(())
}

/// The stacks as the model sees them.
pub open spec fn stacks(output: Seq<AbstractNode>, operators: Seq<Pending>) -> Stacks {
    Stacks { output: views(output), operators }
}

/// The outcome `result` of a step that changed the stacks to `output` and
/// `operators` is what the model `expected` says.
pub open spec fn agrees(
    result: Result<(), SyntaxError>,
    output: Seq<AbstractNode>,
    operators: Seq<Pending>,
    expected: Result<Stacks, SyntaxFault>,
) -> bool {
    match result {
        Ok(()) => expected == Ok::<Stacks, SyntaxFault>(stacks(output, operators)),
        Err(e) => expected == Err::<Stacks, SyntaxFault>(e@),
    }
}

fn push_incoming(
    output: &mut Vec<AbstractNode>,
    operators: &mut Vec<Pending>,
    incoming: OperatorInfo,
) -> (result: Result<(), SyntaxError>)
    ensures
        agrees(
            result,
            final(output)@,
            final(operators)@,
            push_operator(stacks(old(output)@, old(operators)@), incoming),
        ),
{
    loop
        invariant
            push_operator(stacks(output@, operators@), incoming) == push_operator(
                stacks(old(output)@, old(operators)@),
                incoming,
            ),
        decreases operators.len(),
    {
        if operators.len() == 0 {
            operators.push(Pending::Operator(incoming));
            return Ok(());
        }
        match operators[operators.len() - 1] {
            Pending::Parenthesis => {
                operators.push(Pending::Operator(incoming));
                return Ok(());
            },
            Pending::Operator(top) => {
                if top.applies_before(&incoming) {
                    operators.pop();
                    match apply_top(output, top.operation) {
                        Ok(()) => {},
                        Err(e) => { return Err(e); },
                    }
                } else {
                    operators.push(Pending::Operator(incoming));
                    return Ok(());
                }
            },
        }
    }
}

fn close_group(output: &mut Vec<AbstractNode>, operators: &mut Vec<Pending>) -> (result: Result<
    (),
    SyntaxError,
>)
    ensures
        agrees(
            result,
            final(output)@,
            final(operators)@,
            close_parenthesis(stacks(old(output)@, old(operators)@)),
        ),
{
    loop
        invariant
            close_parenthesis(stacks(output@, operators@)) == close_parenthesis(
                stacks(old(output)@, old(operators)@),
            ),
        decreases operators.len(),
    {
        match operators.pop() {
            None => { return Err(SyntaxError::MismatchedParentheses); },
            Some(Pending::Parenthesis) => { return Ok(()); },
            Some(Pending::Operator(top)) => {
                match apply_top(output, top.operation) {
                    Ok(()) => {},
                    Err(e) => { return Err(e); },
                }
            },
        }
    }
}

fn apply_rest(output: &mut Vec<AbstractNode>, operators: &mut Vec<Pending>) -> (result: Result<
    (),
    SyntaxError,
>)
    ensures
        match result {
            Ok(()) => drain(stacks(old(output)@, old(operators)@)) == Ok::<
                Seq<Expr>,
                SyntaxFault,
            >(views(final(output)@)),
            Err(e) => drain(stacks(old(output)@, old(operators)@)) == Err::<
                Seq<Expr>,
                SyntaxFault,
            >(e@),
        },
{
    loop
        invariant
            drain(stacks(output@, operators@)) == drain(stacks(old(output)@, old(operators)@)),
        decreases operators.len(),
    {
        match operators.pop() {
            None => { return Ok(()); },
            Some(Pending::Parenthesis) => { return Err(SyntaxError::MismatchedParentheses); },
            Some(Pending::Operator(top)) => {
                match apply_top(output, top.operation) {
                    Ok(()) => {},
                    Err(e) => { return Err(e); },
                }
            },
        }
    }
}

fn take_token(
    output: &mut Vec<AbstractNode>,
    operators: &mut Vec<Pending>,
    token: String,
) -> (result: Result<(), SyntaxError>)
    ensures
        agrees(
            result,
            final(output)@,
            final(operators)@,
            step(stacks(old(output)@, old(operators)@), token@),
        ),
{
    match classify(token.as_str()) {
        TokenKind::Numeral => {
            match Numeral::new(token) {
                Ok(value) => {
                    let node = AbstractNode::Operand { value };
                    proof {
                        lemma_views_push(output@, node);
                    }
                    output.push(node);
                    Ok(())
                },
                Err(token) => Err(SyntaxError::InvalidNumeral { token }),
            }
        },
        TokenKind::Identifier => {
            let node = AbstractNode::Placeholder { arg_name: token };
            proof {
                lemma_views_push(output@, node);
            }
            output.push(node);
            Ok(())
        },
        TokenKind::Operator(incoming) => push_incoming(output, operators, incoming),
        TokenKind::OpenParenthesis => {
            operators.push(Pending::Parenthesis);
            Ok(())
        },
        TokenKind::CloseParenthesis => close_group(output, operators),
        TokenKind::InvalidNumeral => Err(SyntaxError::InvalidNumeral { token }),
        TokenKind::Unknown => Err(SyntaxError::UnknownOperator { symbol: token }),
    }
}

/// Builds the tree of an expression from its tokens with the shunting-yard
/// algorithm.
///
/// A numeral becomes an operand and a name a placeholder. An operator first
/// applies the operators on top of the operator stack that bind at least as
/// tightly (for a right-associative operator: more tightly), each to the two
/// topmost trees of the output stack; parentheses delimit what an operator
/// can reach. At the end the operators that are left are applied, and one
/// tree must remain.
pub fn infix_to_ast(input: Vec<String>) -> (result: Result<AbstractNode, SyntaxError>)
    ensures
        match result {
            Ok(tree) => parse(views(input@)) == Ok::<Expr, SyntaxFault>(tree@),
            Err(e) => parse(views(input@)) == Err::<Expr, SyntaxFault>(e@),
        },
{
    let ghost tokens = views(input@);
    let mut output: Vec<AbstractNode> = Vec::new();
    let mut operators: Vec<Pending> = Vec::new();
    let mut i: usize = 0;
    proof {
        assert(views(output@) =~= Seq::<Expr>::empty());
    }
    while i < input.len()
        invariant
            i <= input.len(),
            tokens == views(input@),
            run(tokens.take(i as int)) == Ok::<Stacks, SyntaxFault>(stacks(output@, operators@)),
        decreases input.len() - i,
    {
        let token = input[i].clone();
        proof {
            assert(tokens.take(i + 1).drop_last() =~= tokens.take(i as int));
        }
        match take_token(&mut output, &mut operators, token) {
            Ok(()) => {},
            Err(e) => {
                proof {
                    lemma_run_prefix_error(tokens, i + 1);
                }
                return Err(e);
            },
        }
        i += 1;
    }
    proof {
        assert(tokens.take(i as int) =~= tokens);
    }
    match apply_rest(&mut output, &mut operators) {
        Ok(()) => {},
        Err(e) => { return Err(e); },
    }
    if output.len() != 1 {
        return Err(SyntaxError::InvalidExpression { values: output.len() });
    }
    match output.pop() {
        Some(tree) => Ok(tree),
        None => Err(SyntaxError::InvalidExpression { values: 0 }),
    }
}

/// The parameters of a definition: the names in order, each at its index.
pub open spec fn parameters_of(names: Seq<Seq<char>>) -> Seq<Parameter> {
    Seq::new(names.len(), |i: int| Parameter { name: names[i], position: i as nat })
}

/// The function that a definition `fn name(parameters){body}` declares, or
/// the reason why `input` is no definition.
///
/// Spaces do not count. The name stands between the first `fn` and the `(`
/// that follows it, the parameters between that `(` and the next `)`,
/// separated by commas, and the body between the next `{` and the `}` that
/// follows it. The template is the tree of the body.
pub open spec fn definition(input: Seq<char>) -> Result<Function, DefinitionFault> {
    let s = without(input, ' ');
    let keyword = find_from(s, seq!['f', 'n'], 0);
    let open = find_from(s, seq!['('], keyword + 2);
    let close = find_from(s, seq![')'], open + 1);
    let begin = find_from(s, seq!['{'], close + 1);
    let end = find_from(s, seq!['}'], begin + 1);
    if keyword >= s.len() {
        Err(DefinitionFault::MissingKeyword)
    } else if open >= s.len() {
        Err(DefinitionFault::MissingOpenParenthesis)
    } else if close >= s.len() {
        Err(DefinitionFault::MissingCloseParenthesis)
    } else if begin >= s.len() {
        Err(DefinitionFault::MissingOpenBrace)
    } else if end >= s.len() {
        Err(DefinitionFault::MissingCloseBrace)
    } else {
        match tokenize(s.subrange(begin + 1, end)) {
            Err(e) => Err(DefinitionFault::Tokenization(e)),
            Ok(tokens) => match parse(tokens) {
                Err(e) => Err(DefinitionFault::Syntax(e)),
                Ok(template) => Ok(
                    Function {
                        name: s.subrange(keyword + 2, open),
                        parameters: parameters_of(split(s.subrange(open + 1, close), ',')),
                        template,
                    },
                ),
            },
        }
    }
}

fn keyword() -> (p: Vec<char>)
    ensures
        p@ == seq!['f', 'n'],
{
    let mut p: Vec<char> = Vec::new();
    p.push('f');
    p.push('n');
    p
}

fn parameters(names: &Vec<Vec<char>>) -> (arguments: Vec<ArgumentDefinition>)
    ensures
        views(arguments@) == parameters_of(views(names@)),
{
    let mut arguments: Vec<ArgumentDefinition> = Vec::new();
    let mut i: usize = 0;
    while i < names.len()
        invariant
            i <= names.len(),
            arguments.len() == i,
            forall|k: int|
                0 <= k < i ==> (#[trigger] arguments@[k])@ == (Parameter {
                    name: names@[k]@,
                    position: k as nat,
                }),
        decreases names.len() - i,
    {
        arguments.push(ArgumentDefinition { name: to_text(names[i].as_slice()), position: i });
        i += 1;
    }
    arguments
}

/// Reads a function definition `fn name(parameters){body}`.
///
/// Spaces do not count. Fails when the keyword or one of the four delimiters
/// is missing, in the order in which they are looked for, and when the body
/// is no expression.
pub fn parse_function_assignment(input: String) -> (result: Result<FunctionExpr, DefinitionError>)
    ensures
        match result {
            Ok(function) => definition(input@) == Ok::<Function, DefinitionFault>(function@),
            Err(e) => definition(input@) == Err::<Function, DefinitionFault>(e@),
        },
{
    let raw = to_chars(input.as_str());
    let chars = remove_char(raw.as_slice(), ' ');
    let s = chars.as_slice();
    let at = find(s, keyword().as_slice(), 0);
    if at >= s.len() {
        return Err(DefinitionError::MissingKeyword);
    }
    proof {
        lemma_find_from(s@, seq!['f', 'n'], 0);
    }
    let open = find(s, single('(').as_slice(), at + 2);
    if open >= s.len() {
        return Err(DefinitionError::MissingOpenParenthesis);
    }
    let close = find(s, single(')').as_slice(), open + 1);
    if close >= s.len() {
        return Err(DefinitionError::MissingCloseParenthesis);
    }
    let begin = find(s, single('{').as_slice(), close + 1);
    if begin >= s.len() {
        return Err(DefinitionError::MissingOpenBrace);
    }
    let end = find(s, single('}').as_slice(), begin + 1);
    if end >= s.len() {
        return Err(DefinitionError::MissingCloseBrace);
    }
    let tokens = match tokenize_chars(slice_subrange(s, begin + 1, end)) {
        Ok(tokens) => tokens,
        Err(e) => { return Err(DefinitionError::Tokenization(e)); },
    };
    let template = match infix_to_ast(tokens) {
        Ok(template) => template,
        Err(e) => { return Err(DefinitionError::Syntax(e)); },
    };
    let names = split_at(slice_subrange(s, open + 1, close), ',');
    Ok(
        FunctionExpr {
            name: to_text(slice_subrange(s, at + 2, open)),
            arguments: parameters(&names),
            template: Box::new(template),
        },
    )
}

} // verus!
