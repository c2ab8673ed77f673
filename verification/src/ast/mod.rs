//! Expressions as trees: the tree types, the parser that builds them, and
//! the session that evaluates expressions and defines and calls functions.

use vstd::prelude::*;
use vstd::hash_map::StringHashMap;
use vstd::slice::slice_subrange;
use crate::ast::ast::{
    applies_operators, bind, evaluates_to, first_placeholder, instantiate,
    lemma_substitute_resolves, reads_numerals, Expr, Function, FunctionExpr,
};
use crate::ast::parse::{definition, infix_to_ast, parse, parse_function_assignment};
use crate::error::{CallError, CallFault, DefinitionError, Error, EvaluationFault, Fault};
use crate::utils::input::{
    callee, get_normalized_input, is_function_assignment, is_function_call, tokenize,
};
use crate::utils::operators::BinaryOperator;
use crate::utils::text::{
    all_alphabetic, find, find_from, single, split, split_at, to_chars, to_strings, to_text,
    views,
};

pub mod ast;
pub mod grammar;
pub mod leaves;
pub mod parse;
pub mod phrases;

verus! {

/// The functions that a session has defined, by name.
pub struct Registry {
    functions: StringHashMap<FunctionExpr>,
}

impl View for Registry {
    type V = Map<Seq<char>, Function>;

    closed spec fn view(&self) -> Map<Seq<char>, Function> {
        self.functions@.map_values(|function: FunctionExpr| function@)
    }
}

/// The tree of a plain expression, or the error of the tokenizer or the
/// parser.
pub open spec fn expression(input: Seq<char>) -> Result<Expr, Fault> {
    match tokenize(input) {
        Err(e) => Err(Fault::Tokenization(e)),
        Ok(tokens) => match parse(tokens) {
            Err(e) => Err(Fault::Syntax(e)),
            Ok(tree) => Ok(tree),
        },
    }
}

/// `result` is what evaluating `tree` gives: the error that `tree` is, the
/// leftmost placeholder of the tree, or one of its values.
pub open spec fn evaluated<V, N: Fn(&str) -> V, A: Fn(BinaryOperator, V, V) -> V>(
    result: Result<V, Error>,
    tree: Result<Expr, Fault>,
    number: N,
    apply: A,
) -> bool {
    match tree {
        Err(fault) => result matches Err(e) && e@ == fault,
        Ok(t) => match first_placeholder(t) {
            Some(name) => result matches Err(e) && e@ == Fault::Evaluation(
                EvaluationFault::UnresolvedPlaceholder { name },
            ),
            None => result matches Ok(v) && evaluates_to(t, number, apply, v),
        },
    }
}

/// The tree that a call of the function `name` with `arguments` evaluates.
pub open spec fn call_tree(
    functions: Map<Seq<char>, Function>,
    name: Seq<char>,
    arguments: Seq<Seq<char>>,
) -> Result<Expr, CallFault> {
    if functions.contains_key(name) {
        instantiate(functions[name], arguments)
    } else {
        Err(CallFault::UndefinedFunction { name })
    }
}

/// `result` is what a call that evaluates `tree` gives: the error that
/// `tree` is, or one of its values.
pub open spec fn called<V, N: Fn(&str) -> V, A: Fn(BinaryOperator, V, V) -> V>(
    result: Result<V, CallError>,
    tree: Result<Expr, CallFault>,
    number: N,
    apply: A,
) -> bool {
    match tree {
        Err(fault) => result matches Err(e) && e@ == fault,
        Ok(t) => result matches Ok(v) && evaluates_to(t, number, apply, v),
    }
}

/// The arguments of the call `line`: the pieces, separated by commas, of
/// what stands between the first `(` and the next parenthesis of either
/// kind. A line without `(` has the one argument that is empty.
pub open spec fn call_arguments(line: Seq<char>) -> Seq<Seq<char>> {
    let open = find_from(line, seq!['('], 0);
    if open >= line.len() {
        split(Seq::empty(), ',')
    } else {
        let next = find_from(line, seq!['('], open + 1);
        let close = find_from(line, seq![')'], open + 1);
        split(
            line.subrange(
                open + 1,
                if close < next {
                    close
                } else {
                    next
                },
            ),
            ',',
        )
    }
}

/// A call of a name that is not defined fails as undefined, whatever its
/// arguments; a call of a defined name with another number of arguments
/// than the function has parameters fails as an arity mismatch.
pub proof fn lemma_call_faults(
    functions: Map<Seq<char>, Function>,
    name: Seq<char>,
    arguments: Seq<Seq<char>>,
)
    ensures
        !functions.contains_key(name) ==> call_tree(functions, name, arguments) == Err::<
            Expr,
            CallFault,
        >(CallFault::UndefinedFunction { name }),
        functions.contains_key(name) && arguments.len() != functions[name].parameters.len()
            ==> call_tree(functions, name, arguments) == Err::<Expr, CallFault>(
            CallFault::ArityMismatch {
                expected: functions[name].parameters.len(),
                found: arguments.len(),
            },
        ),
{
}

/// A call of a function that was just defined instantiates that function,
/// whatever was defined before. So a second definition of a name replaces
/// the first: calls use the template and the parameters of the second.
pub proof fn lemma_definition_replaces(
    functions: Map<Seq<char>, Function>,
    first: Function,
    second: Function,
    arguments: Seq<Seq<char>>,
)
    requires
        first.name == second.name,
    ensures
        call_tree(functions.insert(second.name, second), second.name, arguments) == instantiate(
            second,
            arguments,
        ),
        functions.insert(first.name, first).insert(second.name, second) == functions.insert(
            second.name,
            second,
        ),
{
}

/// A call never ends on an unresolved placeholder: the tree that it
/// evaluates holds none.
pub proof fn lemma_call_tree_resolved(
    functions: Map<Seq<char>, Function>,
    name: Seq<char>,
    arguments: Seq<Seq<char>>,
)
    ensures
        call_tree(functions, name, arguments) matches Ok(tree) ==> first_placeholder(tree)
            is None,
{
    if functions.contains_key(name) {
        lemma_substitute_resolves(
            functions[name].template,
            bind(functions[name].parameters, arguments),
        );
    }
}

impl Registry {
    /// A registry without functions.
    pub fn new() -> (registry: Self)
        ensures
            registry@ == Map::<Seq<char>, Function>::empty(),
    {
        let registry = Registry { functions: StringHashMap::new() };
        registry
    }

    /// Stores `function` under its name; a function that was stored under
    /// that name before is replaced.
    pub fn insert(&mut self, function: FunctionExpr)
        ensures
            final(self)@ == old(self)@.insert(function@.name, function@),
    {
        let name = function.name.clone();
        self.functions.insert(name, function);
    }

    /// The function stored under `name`, if any.
    pub fn get(&self, name: &str) -> (function: Option<&FunctionExpr>)
        ensures
            match function {
                Some(f) => self@.contains_key(name@) && f@ == self@[name@],
                None => !self@.contains_key(name@),
            },
    {
        self.functions.get(name)
    }

    /// Calls the function `name` with `arguments` and evaluates the result.
    ///
    /// Fails when no function of that name is defined, when the number of
    /// arguments is not that of its parameters, and when a placeholder of
    /// the template has no argument or one that denotes no number.
    pub fn call<V, N: Fn(&str) -> V, A: Fn(BinaryOperator, V, V) -> V>(
        &self,
        name: &str,
        arguments: &Vec<String>,
        number: &N,
        apply: &A,
    ) -> (result: Result<V, CallError>)
        requires
            reads_numerals(*number),
            applies_operators(*apply),
        ensures
            called(result, call_tree(self@, name@, views(arguments@)), *number, *apply),
    {
        match self.get(name) {
            None => Err(CallError::UndefinedFunction { name: name.to_owned() }),
            Some(function) => match function.instantiate(arguments) {
                Err(e) => Err(e),
                Ok(node) => Ok(node.calculate(number, apply)),
            },
        }
    }
}

/// Evaluates a plain expression: tokenizes it, parses the tokens and
/// evaluates the tree.
pub fn calculate<V, N: Fn(&str) -> V, A: Fn(BinaryOperator, V, V) -> V>(
    input: String,
    number: &N,
    apply: &A,
) -> (result: Result<V, Error>)
    requires
        reads_numerals(*number),
        applies_operators(*apply),
    ensures
        evaluated(result, expression(input@), *number, *apply),
{
    let tokens = match get_normalized_input(input.as_str()) {
        Ok(tokens) => tokens,
        Err(e) => { return Err(Error::Tokenization(e)); },
    };
    let tree = match infix_to_ast(tokens) {
        Ok(tree) => tree,
        Err(e) => { return Err(Error::Syntax(e)); },
    };
    match tree.evaluate(number, apply) {
        Ok(v) => Ok(v),
        Err(e) => Err(Error::Evaluation(e)),
    }
}

/// Reads the definition `text` and stores the function in `registry`, in
/// place of any function of the same name. Returns the function's name.
/// Where `text` is no definition, `registry` stays as it is.
pub fn define_function(text: String, registry: &mut Registry) -> (result: Result<
    String,
    DefinitionError,
>)
    ensures
        match definition(text@) {
            Ok(function) => {
                &&& result matches Ok(name)
                &&& name@ == function.name
                &&& final(registry)@ == old(registry)@.insert(function.name, function)
            },
            Err(fault) => {
                &&& result matches Err(e)
                &&& e@ == fault
                &&& final(registry)@ == old(registry)@
            },
        },
{
    match parse_function_assignment(text) {
        Ok(function) => {
            let name = function.name.clone();
            registry.insert(function);
            Ok(name)
        },
        Err(e) => Err(e),
    }
}

fn arguments_of(line: &[char]) -> (arguments: Vec<String>)
    ensures
        views(arguments@) == call_arguments(line@),
{
    let open = find(line, single('(').as_slice(), 0);
    let pieces = if open >= line.len() {
        split_at(slice_subrange(line, 0, 0), ',')
    } else {
        let next = find(line, single('(').as_slice(), open + 1);
        let close = find(line, single(')').as_slice(), open + 1);
        let end = if close < next {
            close
        } else {
            next
        };
        split_at(slice_subrange(line, open + 1, end), ',')
    };
    to_strings(&pieces)
}

/// Calls a function as the line `name(arguments)` says.
///
/// The name is what stands before the first `(`, and the arguments are the
/// pieces, separated by commas, of what stands between that `(` and the
/// next parenthesis.
pub fn call_function<V, N: Fn(&str) -> V, A: Fn(BinaryOperator, V, V) -> V>(
    text: &str,
    registry: &Registry,
    number: &N,
    apply: &A,
) -> (result: Result<V, CallError>)
    requires
        reads_numerals(*number),
        applies_operators(*apply),
    ensures
        called(
            result,
            call_tree(registry@, callee(text@), call_arguments(text@)),
            *number,
            *apply,
        ),
{
    let chars = to_chars(text);
    let line = chars.as_slice();
    let open = find(line, single('(').as_slice(), 0);
    proof {
        assert(line@.subrange(0, open as int) =~= line@.take(open as int));
    }
    let name = to_text(slice_subrange(line, 0, open));
    let arguments = arguments_of(line);
    registry.call(name.as_str(), &arguments, number, apply)
}

/// What a line of a session is read as.
pub ghost enum LineKind {
    Definition,
    Call,
    Expression,
}

/// A line that starts with `fn` is a definition; any other line in which
/// only letters stand before the first `(` is a call; the rest are plain
/// expressions.
pub open spec fn line_kind(line: Seq<char>) -> LineKind {
    if line.len() >= 2 && line[0] == 'f' && line[1] == 'n' {
        LineKind::Definition
    } else if all_alphabetic(callee(line)) {
        LineKind::Call
    } else {
        LineKind::Expression
    }
}

/// What a line of a session has done.
#[derive(Debug, PartialEq)]
pub enum Outcome<V> {
    /// The line defined the function `name`.
    Defined { name: String },
    /// The line called a function, and this is what the call gave.
    Called { value: V },
    /// The line was a plain expression, and this is its value.
    Value { value: V },
}

/// `result` is what the line `line` does to a session whose functions are
/// `before`, and `after` are the functions after it.
///
/// A definition that can be read is stored, in place of any function of the
/// same name. Nothing else changes the functions: a call gives the value of
/// the function's template with the arguments in place, an expression gives
/// its value, and each gives the error that stops it.
pub open spec fn handled<V, N: Fn(&str) -> V, A: Fn(BinaryOperator, V, V) -> V>(
    result: Result<Outcome<V>, Error>,
    before: Map<Seq<char>, Function>,
    after: Map<Seq<char>, Function>,
    line: Seq<char>,
    number: N,
    apply: A,
) -> bool {
    match line_kind(line) {
        LineKind::Definition => match definition(line) {
            Ok(function) => {
                &&& result matches Ok(Outcome::Defined { name })
                &&& name@ == function.name
                &&& after == before.insert(function.name, function)
            },
            Err(fault) => {
                &&& result matches Err(e)
                &&& e@ == Fault::Definition(fault)
                &&& after == before
            },
        },
        LineKind::Call => after == before && match call_tree(
            before,
            callee(line),
            call_arguments(line),
        ) {
            Err(fault) => result matches Err(e) && e@ == Fault::Call(fault),
            Ok(tree) => result matches Ok(Outcome::Called { value }) && evaluates_to(
                tree,
                number,
                apply,
                value,
            ),
        },
        LineKind::Expression => after == before && match expression(line) {
            Err(fault) => result matches Err(e) && e@ == fault,
            Ok(tree) => match first_placeholder(tree) {
                Some(name) => result matches Err(e) && e@ == Fault::Evaluation(
                    EvaluationFault::UnresolvedPlaceholder { name },
                ),
                None => result matches Ok(Outcome::Value { value }) && evaluates_to(
                    tree,
                    number,
                    apply,
                    value,
                ),
            },
        },
    }
}

/// Only a definition changes the functions of a session: after any line
/// that does not start with `fn`, a call or a plain expression, whether it
/// succeeds or fails, they are what they were.
pub proof fn lemma_only_definitions_change_functions<
    V,
    N: Fn(&str) -> V,
    A: Fn(BinaryOperator, V, V) -> V,
>(
    result: Result<Outcome<V>, Error>,
    before: Map<Seq<char>, Function>,
    after: Map<Seq<char>, Function>,
    line: Seq<char>,
    number: N,
    apply: A,
)
    requires
        handled(result, before, after, line, number, apply),
        !(line.len() >= 2 && line[0] == 'f' && line[1] == 'n'),
    ensures
        after == before,
{
}

/// Handles one line of a session.
///
/// The line is taken as it comes: a space before `fn`, or between a name
/// and its `(`, makes it a plain expression. A line that starts with `fn`
/// is a definition, and is stored in `functions`. Any other line in which
/// only letters stand before the first `(` is a call, and the rest are
/// plain expressions: both are evaluated, and `functions` stays as it is.
pub fn handle_input<V, N: Fn(&str) -> V, A: Fn(BinaryOperator, V, V) -> V>(
    input: String,
    functions: &mut Registry,
    number: &N,
    apply: &A,
) -> (result: Result<Outcome<V>, Error>)
    requires
        reads_numerals(*number),
        applies_operators(*apply),
    ensures
        handled(
            result,
            old(functions)@,
            final(functions)@,
            input@,
            *number,
            *apply,
        ),
{
    if is_function_assignment(input.as_str()) {
        match define_function(input, functions) {
            Ok(name) => Ok(Outcome::Defined { name }),
            Err(e) => Err(Error::Definition(e)),
        }
    } else if is_function_call(input.as_str()) {
        match call_function(input.as_str(), functions, number, apply) {
            Ok(value) => Ok(Outcome::Called { value }),
            Err(e) => Err(Error::Call(e)),
        }
    } else {
        match calculate(input, number, apply) {
            Ok(value) => Ok(Outcome::Value { value }),
            Err(e) => Err(e),
        }
    }
}

} // verus!
