//! The tree types, substitution of placeholders and evaluation.

use vstd::prelude::*;
use vstd::hash_map::StringHashMap;
use crate::error::{CallError, CallFault, EvaluationError};
use crate::utils::numeral::{is_float_text, Numeral};
use crate::utils::operators::BinaryOperator;
use crate::utils::text::views;

verus! {

/// Model of a tree: what [`AbstractNode`] and [`Node`] are viewed as.
pub ghost enum Expr {
    /// A leaf that names a parameter.
    Placeholder { name: Seq<char> },
    /// A leaf that holds a numeral, by its text.
    Operand { text: Seq<char> },
    /// An operator applied to two subtrees.
    Binary { operation: BinaryOperator, lhs: Box<Expr>, rhs: Box<Expr> },
}

/// A tree as the parser builds it: its leaves are numerals and placeholders.
#[derive(Debug, PartialEq)]
pub enum AbstractNode {
    Placeholder { arg_name: String },
    Operand { value: Numeral },
    BinaryExpr { operation: BinaryOperator, lhs: Box<AbstractNode>, rhs: Box<AbstractNode> },
}

/// A tree without placeholders.
#[derive(Debug, PartialEq)]
pub enum Node {
    Operand { value: Numeral },
    BinaryExpr { operation: BinaryOperator, lhs: Box<Node>, rhs: Box<Node> },
}

impl AbstractNode {
    /// The model of the tree.
    pub open spec fn model(self) -> Expr
        decreases self,
    {
        match self {
            AbstractNode::Placeholder { arg_name } => Expr::Placeholder { name: arg_name@ },
            AbstractNode::Operand { value } => Expr::Operand { text: value@ },
            AbstractNode::BinaryExpr { operation, lhs, rhs } => Expr::Binary {
                operation,
                lhs: Box::new(lhs.model()),
                rhs: Box::new(rhs.model()),
            },
        }
    }
}

impl Clone for AbstractNode {
    fn clone(&self) -> (copy: Self)
        ensures
            copy@ == self@,
        decreases self,
    {
        match self {
            AbstractNode::Placeholder { arg_name } => AbstractNode::Placeholder {
                arg_name: arg_name.clone(),
            },
            AbstractNode::Operand { value } => AbstractNode::Operand { value: value.clone() },
            AbstractNode::BinaryExpr { operation, lhs, rhs } => AbstractNode::BinaryExpr {
                operation: *operation,
                lhs: Box::new((&**lhs).clone()),
                rhs: Box::new((&**rhs).clone()),
            },
        }
    }
}

impl View for AbstractNode {
    type V = Expr;

    open spec fn view(&self) -> Expr {
        self.model()
    }
}

impl Node {
    /// The model of the tree, which holds no placeholder.
    pub open spec fn model(self) -> Expr
        decreases self,
    {
        match self {
            Node::Operand { value } => Expr::Operand { text: value@ },
            Node::BinaryExpr { operation, lhs, rhs } => Expr::Binary {
                operation,
                lhs: Box::new(lhs.model()),
                rhs: Box::new(rhs.model()),
            },
        }
    }
}

impl Clone for Node {
    fn clone(&self) -> (copy: Self)
        ensures
            copy@ == self@,
        decreases self,
    {
        match self {
            Node::Operand { value } => Node::Operand { value: value.clone() },
            Node::BinaryExpr { operation, lhs, rhs } => Node::BinaryExpr {
                operation: *operation,
                lhs: Box::new((&**lhs).clone()),
                rhs: Box::new((&**rhs).clone()),
            },
        }
    }
}

impl View for Node {
    type V = Expr;

    open spec fn view(&self) -> Expr {
        self.model()
    }
}

/// The name of the leftmost placeholder of a tree, if it has one.
pub open spec fn first_placeholder(e: Expr) -> Option<Seq<char>>
    decreases e,
{
    match e {
        Expr::Placeholder { name } => Some(name),
        Expr::Operand { .. } => None,
        Expr::Binary { lhs, rhs, .. } => match first_placeholder(*lhs) {
            Some(name) => Some(name),
            None => first_placeholder(*rhs),
        },
    }
}

/// `number` reads every numeral.
pub open spec fn reads_numerals<V, N: Fn(&str) -> V>(number: N) -> bool {
    forall|text: &str| is_float_text(text@) ==> call_requires(number, (text,))
}

/// `apply` takes every operator with any two operands.
pub open spec fn applies_operators<V, A: Fn(BinaryOperator, V, V) -> V>(apply: A) -> bool {
    forall|operation: BinaryOperator, l: V, r: V| call_requires(apply, (operation, l, r))
}

/// `v` is a value of the tree `e` under the arithmetic `number`, `apply`:
/// a numeral has the values that `number` gives for its text, and a binary
/// node has the values that `apply` gives for its operator, a value of the
/// left subtree and a value of the right one. A placeholder has no value.
pub open spec fn evaluates_to<V, N: Fn(&str) -> V, A: Fn(BinaryOperator, V, V) -> V>(
    e: Expr,
    number: N,
    apply: A,
    v: V,
) -> bool
    decreases e,
{
    match e {
        Expr::Placeholder { .. } => false,
        Expr::Operand { text } => exists|s: &str|
            s@ == text && #[trigger] call_ensures(number, (s,), v),
        Expr::Binary { operation, lhs, rhs } => exists|l: V, r: V|
            evaluates_to(*lhs, number, apply, l) && evaluates_to(*rhs, number, apply, r)
                && #[trigger] call_ensures(apply, (operation, l, r), v),
    }
}

impl AbstractNode {
    /// Evaluates the tree, left subtree first. Fails on the leftmost
    /// placeholder, if there is one.
    pub fn evaluate<V, N: Fn(&str) -> V, A: Fn(BinaryOperator, V, V) -> V>(
        &self,
        number: &N,
        apply: &A,
    ) -> (result: Result<V, EvaluationError>)
        requires
            reads_numerals(*number),
            applies_operators(*apply),
        ensures
            match result {
                Ok(v) => first_placeholder(self@) is None && evaluates_to(
                    self@,
                    *number,
                    *apply,
                    v,
                ),
                Err(e) => first_placeholder(self@) == Some(e@->name),
            },
        decreases self,
    {
        match self {
            AbstractNode::Placeholder { arg_name } => Err(
                EvaluationError::UnresolvedPlaceholder { name: arg_name.clone() },
            ),
            AbstractNode::Operand { value } => Ok(number(value.as_str())),
            AbstractNode::BinaryExpr { operation, lhs, rhs } => {
                let l = match lhs.evaluate(number, apply) {
                    Ok(v) => v,
                    Err(e) => { return Err(e); },
                };
                let r = match rhs.evaluate(number, apply) {
                    Ok(v) => v,
                    Err(e) => { return Err(e); },
                };
                Ok(apply(*operation, l, r))
            },
        }
    }
}

impl Node {
    /// Evaluates the tree, left subtree first.
    pub fn calculate<V, N: Fn(&str) -> V, A: Fn(BinaryOperator, V, V) -> V>(
        &self,
        number: &N,
        apply: &A,
    ) -> (v: V)
        requires
            reads_numerals(*number),
            applies_operators(*apply),
        ensures
            evaluates_to(self@, *number, *apply, v),
        decreases self,
    {
        match self {
            Node::Operand { value } => number(value.as_str()),
            Node::BinaryExpr { operation, lhs, rhs } => {
                let l = lhs.calculate(number, apply);
                let r = rhs.calculate(number, apply);
                apply(*operation, l, r)
            },
        }
    }
}

/// The arguments of a call: the text that each parameter name is bound to.
pub struct Arguments {
    bound: StringHashMap<String>,
}

impl View for Arguments {
    type V = Map<Seq<char>, Seq<char>>;

    closed spec fn view(&self) -> Map<Seq<char>, Seq<char>> {
        self.bound@.map_values(|text: String| text@)
    }
}

impl Arguments {
    /// No argument.
    pub fn new() -> (arguments: Self)
        ensures
            arguments@ == Map::<Seq<char>, Seq<char>>::empty(),
    {
        let arguments = Arguments { bound: StringHashMap::new() };
        arguments
    }

    /// Binds `name` to `text`; an earlier binding of `name` is replaced.
    pub fn insert(&mut self, name: String, text: String)
        ensures
            final(self)@ == old(self)@.insert(name@, text@),
    {
        self.bound.insert(name, text);
    }

    /// The text that `name` is bound to, if any.
    pub fn get(&self, name: &str) -> (text: Option<&String>)
        ensures
            match text {
                Some(t) => self@.contains_key(name@) && t@ == self@[name@],
                None => !self@.contains_key(name@),
            },
    {
        self.bound.get(name)
    }
}

/// The tree `e` with each placeholder replaced by the numeral that its name
/// is bound to in `arguments`. Fails on the leftmost placeholder whose name
/// is not bound, or is bound to a text that denotes no number.
pub open spec fn substitute(e: Expr, arguments: Map<Seq<char>, Seq<char>>) -> Result<
    Expr,
    CallFault,
>
    decreases e,
{
    match e {
        Expr::Placeholder { name } => if !arguments.contains_key(name) {
            Err(CallFault::MissingArgument { name })
        } else if !is_float_text(arguments[name]) {
            Err(CallFault::ArgumentParseError { name, text: arguments[name] })
        } else {
            Ok(Expr::Operand { text: arguments[name] })
        },
        Expr::Operand { text } => Ok(e),
        Expr::Binary { operation, lhs, rhs } => match substitute(*lhs, arguments) {
            Err(fault) => Err(fault),
            Ok(l) => match substitute(*rhs, arguments) {
                Err(fault) => Err(fault),
                Ok(r) => Ok(Expr::Binary { operation, lhs: Box::new(l), rhs: Box::new(r) }),
            },
        },
    }
}

/// A tree that substitution gives holds no placeholder.
pub proof fn lemma_substitute_resolves(e: Expr, arguments: Map<Seq<char>, Seq<char>>)
    ensures
        substitute(e, arguments) matches Ok(tree) ==> first_placeholder(tree) is None,
    decreases e,
{
    match e {
        Expr::Binary { operation, lhs, rhs } => {
            lemma_substitute_resolves(*lhs, arguments);
            lemma_substitute_resolves(*rhs, arguments);
        },
        _ => {},
    }
}

/// Substitution changes nothing in a tree that holds no placeholder.
pub proof fn lemma_substitute_resolved(e: Expr, arguments: Map<Seq<char>, Seq<char>>)
    requires
        first_placeholder(e) is None,
    ensures
        substitute(e, arguments) == Ok::<Expr, CallFault>(e),
    decreases e,
{
    match e {
        Expr::Binary { operation, lhs, rhs } => {
            lemma_substitute_resolved(*lhs, arguments);
            lemma_substitute_resolved(*rhs, arguments);
        },
        _ => {},
    }
}

impl Node {
    /// A `Node` holds no placeholder.
    pub proof fn lemma_resolved(self)
        ensures
            first_placeholder(self@) is None,
        decreases self,
    {
        match self {
            Node::BinaryExpr { operation, lhs, rhs } => {
                lhs.lemma_resolved();
                rhs.lemma_resolved();
            },
            _ => {},
        }
    }
}

impl AbstractNode {
    /// Makes a tree without placeholders: a copy of this one in which each
    /// placeholder is the numeral that `arguments` binds its name to.
    pub fn replace_placeholders(&self, arguments: &Arguments) -> (result: Result<Node, CallError>)
        ensures
            match result {
                Ok(node) => substitute(self@, arguments@) == Ok::<Expr, CallFault>(node@),
                Err(e) => substitute(self@, arguments@) == Err::<Expr, CallFault>(e@),
            },
        decreases self,
    {
        match self {
            AbstractNode::Placeholder { arg_name } => {
                match arguments.get(arg_name.as_str()) {
                    None => Err(CallError::MissingArgument { name: arg_name.clone() }),
                    Some(text) => match Numeral::new(text.clone()) {
                        Ok(value) => Ok(Node::Operand { value }),
                        Err(text) => Err(
                            CallError::ArgumentParseError { name: arg_name.clone(), text },
                        ),
                    },
                }
            },
            AbstractNode::Operand { value } => Ok(Node::Operand { value: value.clone() }),
            AbstractNode::BinaryExpr { operation, lhs, rhs } => {
                let l = match lhs.replace_placeholders(arguments) {
                    Ok(l) => l,
                    Err(e) => { return Err(e); },
                };
                let r = match rhs.replace_placeholders(arguments) {
                    Ok(r) => r,
                    Err(e) => { return Err(e); },
                };
                Ok(Node::BinaryExpr { operation: *operation, lhs: Box::new(l), rhs: Box::new(r) })
            },
        }
    }
}

/// A parameter of a function: its name and its place in the parameter list.
#[derive(Debug, PartialEq)]
pub struct ArgumentDefinition {
    pub name: String,
    pub position: usize,
}

/// Model of an [`ArgumentDefinition`].
pub ghost struct Parameter {
    pub name: Seq<char>,
    pub position: nat,
}

impl View for ArgumentDefinition {
    type V = Parameter;

    open spec fn view(&self) -> Parameter {
        Parameter { name: self.name@, position: self.position as nat }
    }
}

impl Clone for ArgumentDefinition {
    fn clone(&self) -> (copy: Self)
        ensures
            copy@ == self@,
    {
        ArgumentDefinition { name: self.name.clone(), position: self.position }
    }
}

/// A function: a template with the names that its placeholders may use.
#[derive(Debug, PartialEq)]
pub struct FunctionExpr {
    pub name: String,
    pub arguments: Vec<ArgumentDefinition>,
    pub template: Box<AbstractNode>,
}

/// Model of a [`FunctionExpr`].
pub ghost struct Function {
    pub name: Seq<char>,
    pub parameters: Seq<Parameter>,
    pub template: Expr,
}

impl View for FunctionExpr {
    type V = Function;

    open spec fn view(&self) -> Function {
        Function {
            name: self.name@,
            parameters: views(self.arguments@),
            template: self.template@,
        }
    }
}

impl Clone for FunctionExpr {
    fn clone(&self) -> (copy: Self)
        ensures
            copy@ == self@,
    {
        let mut arguments: Vec<ArgumentDefinition> = Vec::new();
        let mut i: usize = 0;
        while i < self.arguments.len()
            invariant
                i <= self.arguments.len(),
                views(arguments@) == views(self.arguments@).take(i as int),
            decreases self.arguments.len() - i,
        {
            let argument = self.arguments[i].clone();
            proof {
                crate::utils::text::lemma_views_push(arguments@, argument);
            }
            arguments.push(argument);
            i += 1;
        }
        proof {
            assert(views(self.arguments@).take(i as int) =~= views(self.arguments@));
        }
        FunctionExpr {
            name: self.name.clone(),
            arguments,
            template: Box::new((&*self.template).clone()),
        }
    }
}

/// The name of the first parameter whose position is `position`, if any.
pub open spec fn parameter_at(parameters: Seq<Parameter>, position: nat) -> Option<Seq<char>>
    decreases parameters.len(),
{
    if parameters.len() == 0 {
        None
    } else if parameters.first().position == position {
        Some(parameters.first().name)
    } else {
        parameter_at(parameters.drop_first(), position)
    }
}

/// The bindings that a call makes: each argument is bound to the name of the
/// parameter at its position, a later argument replacing an earlier one of
/// the same name; an argument whose position no parameter has is dropped.
pub open spec fn bind(parameters: Seq<Parameter>, arguments: Seq<Seq<char>>) -> Map<
    Seq<char>,
    Seq<char>,
>
    decreases arguments.len(),
{
    if arguments.len() == 0 {
        Map::empty()
    } else {
        let before = bind(parameters, arguments.drop_last());
        match parameter_at(parameters, (arguments.len() - 1) as nat) {
            Some(name) => before.insert(name, arguments.last()),
            None => before,
        }
    }
}

/// The tree that a call of `function` with `arguments` evaluates: the
/// template with the arguments in place of its placeholders. Fails when the
/// number of arguments is not the number of parameters, and as
/// [`substitute`] does.
pub open spec fn instantiate(function: Function, arguments: Seq<Seq<char>>) -> Result<
    Expr,
    CallFault,
> {
    if arguments.len() != function.parameters.len() {
        Err(
            CallFault::ArityMismatch {
                expected: function.parameters.len(),
                found: arguments.len(),
            },
        )
    } else {
        substitute(function.template, bind(function.parameters, arguments))
    }
}

impl FunctionExpr {
    fn parameter(&self, position: usize) -> (name: Option<&String>)
        ensures
            match name {
                Some(n) => parameter_at(self@.parameters, position as nat) == Some(n@),
                None => parameter_at(self@.parameters, position as nat) is None,
            },
    {
        let ghost parameters = self@.parameters;
        let mut i: usize = 0;
        proof {
            assert(parameters.skip(0) =~= parameters);
        }
        while i < self.arguments.len()
            invariant
                i <= self.arguments.len(),
                parameters == views(self.arguments@),
                parameter_at(parameters, position as nat) == parameter_at(
                    parameters.skip(i as int),
                    position as nat,
                ),
            decreases self.arguments.len() - i,
        {
            proof {
                assert(parameters.skip(i as int).drop_first() =~= parameters.skip(i + 1));
            }
            if self.arguments[i].position == position {
                return Some(&self.arguments[i].name);
            }
            i += 1;
        }
        None
    }

    /// Makes the tree that a call with `arguments` evaluates.
    pub fn instantiate(&self, arguments: &Vec<String>) -> (result: Result<Node, CallError>)
        ensures
            match result {
                Ok(node) => instantiate(self@, views(arguments@)) == Ok::<Expr, CallFault>(node@),
                Err(e) => instantiate(self@, views(arguments@)) == Err::<Expr, CallFault>(e@),
            },
    {
        if arguments.len() != self.arguments.len() {
            return Err(
                CallError::ArityMismatch {
                    expected: self.arguments.len(),
                    found: arguments.len(),
                },
            );
        }
        let ghost texts = views(arguments@);
        let mut bound = Arguments::new();
        let mut i: usize = 0;
        while i < arguments.len()
            invariant
                i <= arguments.len(),
                texts == views(arguments@),
                bound@ == bind(self@.parameters, texts.take(i as int)),
            decreases arguments.len() - i,
        {
            proof {
                assert(texts.take(i + 1).drop_last() =~= texts.take(i as int));
            }
            match self.parameter(i) {
                Some(name) => {
                    bound.insert(name.clone(), arguments[i].clone());
                },
                None => {},
            }
            i += 1;
        }
        proof {
            assert(texts.take(i as int) =~= texts);
        }
        self.template.replace_placeholders(&bound)
    }
}

} // verus!
