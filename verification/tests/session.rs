use calculator::ast::ast::{Arguments, Node};
use calculator::ast::parse::{infix_to_ast, parse_function_assignment};
use calculator::ast::{calculate, call_function, define_function, handle_input, Outcome, Registry};
use calculator::error::{
    CallError, DefinitionError, Error, EvaluationError, SyntaxError, TokenizationError,
};
use calculator::utils::input::get_normalized_input;
use calculator::utils::numeral::Numeral;
use calculator::utils::operators::BinaryOperator;

fn number(text: &str) -> f64 {
    text.parse::<f64>().unwrap()
}

fn apply(operation: BinaryOperator, l: f64, r: f64) -> f64 {
    match operation {
        BinaryOperator::Addition => l + r,
        BinaryOperator::Subtraction => l - r,
        BinaryOperator::Multiplication => l * r,
        BinaryOperator::Division => l / r,
        BinaryOperator::Index => l.powf(r),
    }
}

fn evaluate_expression(text: &str) -> Result<f64, Error> {
    calculate(text.to_string(), &number, &apply)
}

fn call(text: &str, registry: &Registry) -> Result<f64, CallError> {
    call_function(text, registry, &number, &apply)
}

fn strings(parts: &[&str]) -> Vec<String> {
    parts.iter().map(|x| x.to_string()).collect()
}

#[test]
fn multiplication_binds_tighter_than_addition() {
    assert_eq!(evaluate_expression("2+3*4"), Ok(14.0));
}

#[test]
fn power_is_right_associative() {
    assert_eq!(evaluate_expression("2^3^2"), Ok(512.0));
}

#[test]
fn parentheses_override_precedence() {
    assert_eq!(evaluate_expression("(2+3)*4"), Ok(20.0));
}

#[test]
fn unary_minus_is_zero_minus() {
    assert_eq!(evaluate_expression("4+-5"), Ok(-1.0));
    assert_eq!(evaluate_expression("4+-5"), evaluate_expression("4+(0-5)"));
    assert_eq!(evaluate_expression("-2^2"), Ok(4.0));
    assert_eq!(evaluate_expression("-2^2"), evaluate_expression("(0-2)^2"));
    assert_eq!(evaluate_expression("2*-3"), Ok(-6.0));
    assert_eq!(evaluate_expression("+7"), Ok(7.0));
    assert_eq!(evaluate_expression("--5"), Ok(5.0));
    assert_eq!(evaluate_expression("---5"), Ok(-5.0));
    assert_eq!(evaluate_expression("-(-5)"), Ok(5.0));
    assert_eq!(evaluate_expression("2--3"), Ok(5.0));
    assert_eq!(evaluate_expression("2*-+3"), Ok(-6.0));
}

#[test]
fn unbalanced_parentheses_are_mismatched() {
    assert_eq!(
        evaluate_expression("(2+3"),
        Err(Error::Syntax(SyntaxError::MismatchedParentheses))
    );
    assert_eq!(
        evaluate_expression("2+3)"),
        Err(Error::Syntax(SyntaxError::MismatchedParentheses))
    );
}

#[test]
fn division_by_zero_is_infinite() {
    assert_eq!(evaluate_expression("5/0"), Ok(f64::INFINITY));
    assert_eq!(evaluate_expression("(0-5)/0"), Ok(f64::NEG_INFINITY));
    assert!(evaluate_expression("0/0").unwrap().is_nan());
}

#[test]
fn expressions_fail_with_the_error_of_their_stage() {
    assert_eq!(
        evaluate_expression("2 & 3"),
        Err(Error::Tokenization(TokenizationError { character: '&' }))
    );
    assert_eq!(evaluate_expression("2+"), Err(Error::Syntax(SyntaxError::NotEnoughOperands)));
    assert_eq!(evaluate_expression("*"), Err(Error::Syntax(SyntaxError::NotEnoughOperands)));
    assert_eq!(evaluate_expression("2 3"), Ok(23.0));
    assert_eq!(
        evaluate_expression("(2)(3)"),
        Err(Error::Syntax(SyntaxError::InvalidExpression { values: 2 }))
    );
    assert_eq!(
        evaluate_expression(""),
        Err(Error::Syntax(SyntaxError::InvalidExpression { values: 0 }))
    );
    assert_eq!(
        evaluate_expression("1.2.3+1"),
        Err(Error::Syntax(SyntaxError::InvalidNumeral { token: "1.2.3".to_string() }))
    );
    assert_eq!(
        evaluate_expression("2a*3"),
        Err(Error::Syntax(SyntaxError::UnknownOperator { symbol: "2a".to_string() }))
    );
    assert_eq!(
        evaluate_expression("2*x+y"),
        Err(Error::Evaluation(EvaluationError::UnresolvedPlaceholder { name: "x".to_string() }))
    );
}

#[test]
fn parser_reports_unknown_operators_and_leftover_values() {
    assert_eq!(
        infix_to_ast(strings(&["2", "%", "3"])),
        Err(SyntaxError::UnknownOperator { symbol: "%".to_string() })
    );
    assert_eq!(
        infix_to_ast(strings(&["2", "3", "4"])),
        Err(SyntaxError::InvalidExpression { values: 3 })
    );
    assert_eq!(infix_to_ast(strings(&["(", ")"])), Err(SyntaxError::InvalidExpression { values: 0 }));
    assert_eq!(infix_to_ast(strings(&[")"])), Err(SyntaxError::MismatchedParentheses));
    assert_eq!(infix_to_ast(strings(&["+", ")"])), Err(SyntaxError::NotEnoughOperands));
}

#[test]
fn every_input_gives_a_value_or_an_error() {
    let alphabet = ['1', '.', 'a', 'e', '+', '-', '*', '/', '^', '(', ')', ' ', '÷', '#', 'A'];
    let mut texts: Vec<String> = vec![String::new()];
    let mut start = 0;
    for _ in 0..4 {
        let end = texts.len();
        for k in start..end {
            for c in alphabet {
                let mut longer = texts[k].clone();
                longer.push(c);
                texts.push(longer);
            }
        }
        start = end;
    }
    let mut values = 0;
    for text in &texts {
        match evaluate_expression(text) {
            Ok(_) => values += 1,
            Err(Error::Tokenization(e)) => assert!(text.contains(e.character)),
            Err(Error::Syntax(_)) => {},
            Err(Error::Evaluation(_)) => assert!(text.contains('a') || text.contains('e')),
            Err(other) => panic!("{:?} on {:?}", other, text),
        }
    }
    assert!(values > 100);
}

#[test]
fn a_defined_function_can_be_called() {
    let mut registry = Registry::new();
    assert_eq!(define_function("fn foo(a,b){a+b}".to_string(), &mut registry), Ok("foo".to_string()));
    assert_eq!(call("foo(1,2)", &registry), Ok(3.0));
    assert_eq!(call("foo(1.5,-2e1)", &registry), Ok(-18.5));
    assert_eq!(call("foo(inf,1)", &registry), Ok(f64::INFINITY));
}

#[test]
fn a_second_definition_replaces_the_first() {
    let mut registry = Registry::new();
    assert_eq!(define_function("fn foo(a,b){a+b}".to_string(), &mut registry), Ok("foo".to_string()));
    assert_eq!(call("foo(1,2)", &registry), Ok(3.0));
    assert_eq!(define_function("fn foo(a,b){a*b-1}".to_string(), &mut registry), Ok("foo".to_string()));
    assert_eq!(call("foo(1,2)", &registry), Ok(1.0));
    assert_eq!(define_function("fn foo(x){x^2}".to_string(), &mut registry), Ok("foo".to_string()));
    assert_eq!(call("foo(3)", &registry), Ok(9.0));
    assert_eq!(call("foo(1,2)", &registry), Err(CallError::ArityMismatch { expected: 1, found: 2 }));
}

#[test]
fn a_failed_definition_leaves_the_registry_unchanged() {
    let mut registry = Registry::new();
    assert_eq!(define_function("fn foo(a){a+1}".to_string(), &mut registry), Ok("foo".to_string()));
    assert_eq!(
        define_function("fn foo(a){a+}".to_string(), &mut registry),
        Err(DefinitionError::Syntax(SyntaxError::NotEnoughOperands))
    );
    assert_eq!(call("foo(1)", &registry), Ok(2.0));
}

#[test]
fn calls_fail_on_undefined_names_and_wrong_arity() {
    let mut registry = Registry::new();
    assert_eq!(
        call("foo(1,2)", &registry),
        Err(CallError::UndefinedFunction { name: "foo".to_string() })
    );
    define_function("fn foo(a,b){a+b}".to_string(), &mut registry).unwrap();
    assert_eq!(
        call("bar(1,2)", &registry),
        Err(CallError::UndefinedFunction { name: "bar".to_string() })
    );
    assert_eq!(call("foo(1)", &registry), Err(CallError::ArityMismatch { expected: 2, found: 1 }));
    assert_eq!(
        call("foo(1,2,3)", &registry),
        Err(CallError::ArityMismatch { expected: 2, found: 3 })
    );
    assert_eq!(call("foo()", &registry), Err(CallError::ArityMismatch { expected: 2, found: 1 }));
    assert_eq!(call("foo", &registry), Err(CallError::ArityMismatch { expected: 2, found: 1 }));
}

#[test]
fn calls_fail_on_missing_and_unparsable_arguments() {
    let mut registry = Registry::new();
    define_function("fn f(a){a+b}".to_string(), &mut registry).unwrap();
    assert_eq!(call("f(1)", &registry), Err(CallError::MissingArgument { name: "b".to_string() }));
    define_function("fn g(a,b){b+a}".to_string(), &mut registry).unwrap();
    assert_eq!(
        call("g(x,y)", &registry),
        Err(CallError::ArgumentParseError { name: "b".to_string(), text: "y".to_string() })
    );
    assert_eq!(
        call("g(1, 2)", &registry),
        Err(CallError::ArgumentParseError { name: "b".to_string(), text: " 2".to_string() })
    );
    assert_eq!(
        call("g(,2)", &registry),
        Err(CallError::ArgumentParseError { name: "a".to_string(), text: "".to_string() })
    );
}

#[test]
fn call_arguments_end_at_the_next_parenthesis() {
    let mut registry = Registry::new();
    define_function("fn f(a,b){a-b}".to_string(), &mut registry).unwrap();
    assert_eq!(call("f(5,3)trailing", &registry), Ok(2.0));
    assert_eq!(call("f(5,3", &registry), Ok(2.0));
    assert_eq!(call("f(5,3(9", &registry), Ok(2.0));
    define_function("fn k(){7}".to_string(), &mut registry).unwrap();
    assert_eq!(call("k()", &registry), Ok(7.0));
    assert_eq!(call("k", &registry), Ok(7.0));
    assert_eq!(call("k(1)", &registry), Ok(7.0));
    assert_eq!(call("k(1,2)", &registry), Err(CallError::ArityMismatch { expected: 1, found: 2 }));
}

#[test]
fn a_repeated_parameter_takes_the_last_argument() {
    let mut registry = Registry::new();
    define_function("fn f(a,a){a}".to_string(), &mut registry).unwrap();
    assert_eq!(call("f(1,2)", &registry), Ok(2.0));
}

#[test]
fn definitions_need_the_keyword_and_the_four_delimiters() {
    let read = |text: &str| parse_function_assignment(text.to_string()).map(|f| f.name);
    assert_eq!(read("fn foo(a){a}"), Ok("foo".to_string()));
    assert_eq!(read(" f n  f o o ( a ) { a } "), Ok("foo".to_string()));
    assert_eq!(read("foo(a){a}"), Err(DefinitionError::MissingKeyword));
    assert_eq!(read(""), Err(DefinitionError::MissingKeyword));
    assert_eq!(read("fn foo"), Err(DefinitionError::MissingOpenParenthesis));
    assert_eq!(read("(a) fn foo {a}"), Err(DefinitionError::MissingOpenParenthesis));
    assert_eq!(read("fn foo(a{a}"), Err(DefinitionError::MissingCloseParenthesis));
    assert_eq!(read("fn foo(a) a }"), Err(DefinitionError::MissingOpenBrace));
    assert_eq!(read("fn foo(a){a"), Err(DefinitionError::MissingCloseBrace));
    assert_eq!(
        read("fn foo(a){a$}"),
        Err(DefinitionError::Tokenization(TokenizationError { character: '$' }))
    );
    assert_eq!(read("fn foo(a){(a}"), Err(DefinitionError::Syntax(SyntaxError::MismatchedParentheses)));
    assert_eq!(
        read("fn foo(a){}"),
        Err(DefinitionError::Syntax(SyntaxError::InvalidExpression { values: 0 }))
    );
}

#[test]
fn definitions_number_their_parameters() {
    let function = parse_function_assignment("fn area(w, h, d) { w * (h + d) }".to_string()).unwrap();
    assert_eq!(function.name, "area");
    let names: Vec<(&str, usize)> =
        function.arguments.iter().map(|a| (a.name.as_str(), a.position)).collect();
    assert_eq!(names, vec![("w", 0), ("h", 1), ("d", 2)]);
    let none = parse_function_assignment("fn k(){7}".to_string()).unwrap();
    let names: Vec<(&str, usize)> =
        none.arguments.iter().map(|a| (a.name.as_str(), a.position)).collect();
    assert_eq!(names, vec![("", 0)]);
    assert_eq!(parse_function_assignment("fn fnord(x){x}".to_string()).unwrap().name, "fnord");
}

#[test]
fn instantiate_binds_arguments_by_position() {
    let function = parse_function_assignment("fn f(a,b){a/b}".to_string()).unwrap();
    let node = function.instantiate(&strings(&["1", "4"])).unwrap();
    assert_eq!(
        node,
        Node::BinaryExpr {
            operation: BinaryOperator::Division,
            lhs: Box::new(Node::Operand { value: Numeral::new("1".to_string()).unwrap() }),
            rhs: Box::new(Node::Operand { value: Numeral::new("4".to_string()).unwrap() }),
        }
    );
    assert_eq!(node.calculate(&number, &apply), 0.25);
    assert_eq!(node.clone(), node);
}

#[test]
fn replace_placeholders_reads_the_bindings() {
    let template = infix_to_ast(get_normalized_input("x*x+1").unwrap()).unwrap();
    let mut arguments = Arguments::new();
    assert_eq!(
        template.replace_placeholders(&arguments),
        Err(CallError::MissingArgument { name: "x".to_string() })
    );
    arguments.insert("x".to_string(), "three".to_string());
    assert_eq!(
        template.replace_placeholders(&arguments),
        Err(CallError::ArgumentParseError { name: "x".to_string(), text: "three".to_string() })
    );
    arguments.insert("x".to_string(), "3".to_string());
    assert_eq!(arguments.get("x"), Some(&"3".to_string()));
    assert_eq!(arguments.get("y"), None);
    let node = template.replace_placeholders(&arguments).unwrap();
    assert_eq!(node.calculate(&number, &apply), 10.0);
}

#[test]
fn registry_stores_functions_by_name() {
    let mut registry = Registry::new();
    assert!(registry.get("foo").is_none());
    registry.insert(parse_function_assignment("fn foo(a){a}".to_string()).unwrap());
    assert_eq!(registry.get("foo").unwrap().name, "foo");
    assert!(registry.get("bar").is_none());
    assert_eq!(registry.call("foo", &strings(&["2.5"]), &number, &apply), Ok(2.5));
    assert_eq!(
        registry.call("bar", &strings(&["2.5"]), &number, &apply),
        Err(CallError::UndefinedFunction { name: "bar".to_string() })
    );
}

#[test]
fn a_session_tells_definitions_calls_and_expressions_apart() {
    let mut functions = Registry::new();
    let mut line = |text: &str| handle_input(text.to_string(), &mut functions, &number, &apply);
    assert_eq!(line("2 + 3 * 4"), Ok(Outcome::Value { value: 14.0 }));
    assert_eq!(line("fn sq(x) { x * x }"), Ok(Outcome::Defined { name: "sq".to_string() }));
    assert_eq!(line("sq(1.5)"), Ok(Outcome::Called { value: 2.25 }));
    assert_eq!(
        line("sq( 1.5 )"),
        Err(Error::Call(CallError::ArgumentParseError {
            name: "x".to_string(),
            text: " 1.5 ".to_string()
        }))
    );
    assert_eq!(
        line("cube(2)"),
        Err(Error::Call(CallError::UndefinedFunction { name: "cube".to_string() }))
    );
    assert_eq!(
        line("sq(1,2)"),
        Err(Error::Call(CallError::ArityMismatch { expected: 1, found: 2 }))
    );
    assert_eq!(line("fn sq(x"), Err(Error::Definition(DefinitionError::MissingCloseParenthesis)));
    assert_eq!(line("sq(3)"), Ok(Outcome::Called { value: 9.0 }));
    assert_eq!(
        line("2+x"),
        Err(Error::Evaluation(EvaluationError::UnresolvedPlaceholder { name: "x".to_string() }))
    );
    assert_eq!(
        line("(2+3)*4"),
        Err(Error::Call(CallError::UndefinedFunction { name: "".to_string() }))
    );
    assert_eq!(line("2*(3+4)"), Ok(Outcome::Value { value: 14.0 }));
    assert_eq!(line("2 $ 3"), Err(Error::Tokenization(TokenizationError { character: '$' })));
}

#[test]
fn a_line_is_classified_as_it_comes() {
    let mut functions = Registry::new();
    assert_eq!(
        handle_input(" fn foo(a,b){a+b}".to_string(), &mut functions, &number, &apply),
        Err(Error::Tokenization(TokenizationError { character: ',' }))
    );
    assert!(functions.get("foo").is_none());
    assert_eq!(
        handle_input("fn foo(a,b){a+b}".to_string(), &mut functions, &number, &apply),
        Ok(Outcome::Defined { name: "foo".to_string() })
    );
    assert_eq!(
        handle_input("foo (1,2)".to_string(), &mut functions, &number, &apply),
        Err(Error::Tokenization(TokenizationError { character: ',' }))
    );
    assert_eq!(
        handle_input("foo(1,2)".to_string(), &mut functions, &number, &apply),
        Ok(Outcome::Called { value: 3.0 })
    );
}

#[test]
fn calls_and_expressions_leave_the_functions_alone() {
    let mut functions = Registry::new();
    handle_input("fn foo(a){a*2}".to_string(), &mut functions, &number, &apply).unwrap();
    for text in ["foo(1)", "foo(1,2)", "bar(1)", "2+3", "2+", "x", "foo(x)", " fn foo(a){a}"] {
        let _ = handle_input(text.to_string(), &mut functions, &number, &apply);
        assert_eq!(call("foo(4)", &functions), Ok(8.0));
        assert!(functions.get("bar").is_none());
    }
}

#[test]
fn names_in_expressions_are_placeholders_whatever_they_spell() {
    for name in ["inf", "nan", "infinity"] {
        assert_eq!(
            evaluate_expression(name),
            Err(Error::Evaluation(EvaluationError::UnresolvedPlaceholder {
                name: name.to_string()
            }))
        );
    }
    let mut registry = Registry::new();
    define_function("fn f(inf){inf+1}".to_string(), &mut registry).unwrap();
    assert_eq!(call("f(2)", &registry), Ok(3.0));
    assert_eq!(call("f(inf)", &registry), Ok(f64::INFINITY));
}
