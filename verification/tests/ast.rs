use calculator::ast::ast::{AbstractNode, ArgumentDefinition, FunctionExpr};
use calculator::ast::parse::{classify, infix_to_ast, parse_function_assignment, TokenKind};
use calculator::ast::{calculate, handle_input, Outcome, Registry};
use calculator::error::{Error, EvaluationError};
use calculator::utils::numeral::Numeral;
use calculator::utils::operators::BinaryOperator;

fn tokens(parts: &[&str]) -> Vec<String> {
    parts.iter().map(|x| x.to_string()).collect()
}

fn number(text: &str) -> f64 {
    text.parse::<f64>().unwrap()
}

fn apply(operation: BinaryOperator, l: f64, r: f64) -> f64 {
    match operation {
        BinaryOperator::Addition => l + r,
        BinaryOperator::Subtraction => l - r,
        BinaryOperator::Multiplication => l * r,
        BinaryOperator::Division => l / r,
        BinaryOperator::Index => l.powf(r),
    }
}

fn operand(text: &str) -> Box<AbstractNode> {
    Box::new(AbstractNode::Operand { value: Numeral::new(text.to_string()).unwrap() })
}

fn binary(operation: BinaryOperator, lhs: Box<AbstractNode>, rhs: Box<AbstractNode>) -> AbstractNode {
    AbstractNode::BinaryExpr { operation, lhs, rhs }
}

fn run_lines(inputs: Vec<String>) -> Vec<Result<Outcome<f64>, Error>> {
    let mut functions = Registry::new();
    let mut outcomes = Vec::new();
    for input in inputs {
        outcomes.push(handle_input(input.replace(" ", ""), &mut functions, &number, &apply));
    }
    outcomes
}

#[test]
fn mod_test_wikipedia_example() {
    let input = String::from("3 + 4 * 2 ÷ ( 1 - 5 ) ^ 2 ^ 3");
    let expected = 3.0_f64 + 4.0_f64 * 2.0_f64 / (1.0_f64 - 5.0_f64).powf(2.0_f64.powf(3.0_f64));
    assert_eq!(calculate(input, &number, &apply), Ok(expected));
}

#[test]
fn mod_test_another_example() {
    let input = String::from("4+5-2*5");
    let expected = 4.0_f64 + 5.0_f64 - 2.0_f64 * 5.0_f64;
    assert_eq!(calculate(input, &number, &apply), Ok(expected));
}

#[test]
fn mod_test_function_assignment() {
    let inputs = vec!["fn foo(a, b) { a + b }".to_string(), "foo(1, 2)".to_string()];
    assert_eq!(
        run_lines(inputs),
        vec![Ok(Outcome::Defined { name: "foo".to_string() }), Ok(Outcome::Called { value: 3.0 })]
    );
}

#[test]
fn test_function_assignment_double_variable() {
    let inputs = vec!["fn foo (a) { a * a }".to_string(), "foo(2)".to_string()];
    assert_eq!(
        run_lines(inputs),
        vec![Ok(Outcome::Defined { name: "foo".to_string() }), Ok(Outcome::Called { value: 4.0 })]
    );
}

#[test]
fn parse_test_basic_infix_conversion_addition() {
    let input = tokens(&["4", "+", "5"]);
    assert_eq!(
        infix_to_ast(input),
        Ok(AbstractNode::BinaryExpr {
            operation: BinaryOperator::Addition,
            lhs: operand("4"),
            rhs: operand("5"),
        })
    )
}

#[test]
fn parse_test_basic_infix_conversion_subtraction() {
    let input = tokens(&["4", "-", "5"]);
    assert_eq!(
        infix_to_ast(input),
        Ok(AbstractNode::BinaryExpr {
            operation: BinaryOperator::Subtraction,
            lhs: operand("4"),
            rhs: operand("5"),
        })
    )
}

#[test]
fn parse_test_basic_infix_conversion_multiplication() {
    let input = tokens(&["4", "*", "5"]);
    assert_eq!(
        infix_to_ast(input),
        Ok(AbstractNode::BinaryExpr {
            operation: BinaryOperator::Multiplication,
            lhs: operand("4"),
            rhs: operand("5"),
        })
    )
}

#[test]
fn parse_test_basic_infix_conversion_division() {
    let input = tokens(&["4", "/", "5"]);
    assert_eq!(
        infix_to_ast(input),
        Ok(AbstractNode::BinaryExpr {
            operation: BinaryOperator::Division,
            lhs: operand("4"),
            rhs: operand("5"),
        })
    )
}

#[test]
fn parse_test_basic_infix_conversion_index() {
    let input = tokens(&["4", "^", "5"]);
    assert_eq!(
        infix_to_ast(input),
        Ok(AbstractNode::BinaryExpr {
            operation: BinaryOperator::Index,
            lhs: operand("4"),
            rhs: operand("5"),
        })
    )
}

#[test]
fn parse_test_foo() {
    let input = tokens(&["4", "+", "(", "1", "-", "5", ")"]);
    assert_eq!(
        infix_to_ast(input),
        Ok(AbstractNode::BinaryExpr {
            operation: BinaryOperator::Addition,
            lhs: operand("4"),
            rhs: Box::new(AbstractNode::BinaryExpr {
                operation: BinaryOperator::Subtraction,
                lhs: operand("1"),
                rhs: operand("5"),
            }),
        })
    );
}

#[test]
fn parse_test_another_example() {
    let input = tokens(&["4", "+", "5", "-", "2", "*", "5"]);
    assert_eq!(
        infix_to_ast(input),
        Ok(AbstractNode::BinaryExpr {
            operation: BinaryOperator::Subtraction,
            lhs: Box::new(AbstractNode::BinaryExpr {
                operation: BinaryOperator::Addition,
                lhs: operand("4"),
                rhs: operand("5")
            }),
            rhs: Box::new(AbstractNode::BinaryExpr {
                operation: BinaryOperator::Multiplication,
                lhs: operand("2"),
                rhs: operand("5"),
            }),
        })
    );
}

#[test]
fn parse_test_function_assignment() {
    let input = String::from("fn foo(a, b) { a + b }");
    assert_eq!(
        parse_function_assignment(input),
        Ok(FunctionExpr {
            name: String::from("foo"),
            arguments: vec![
                ArgumentDefinition { position: 0, name: "a".to_string() },
                ArgumentDefinition { position: 1, name: "b".to_string() }
            ],
            template: Box::new(AbstractNode::BinaryExpr {
                operation: BinaryOperator::Addition,
                lhs: Box::new(AbstractNode::Placeholder { arg_name: "a".to_string() }),
                rhs: Box::new(AbstractNode::Placeholder { arg_name: "b".to_string() }),
            }),
        })
    );
}

#[test]
fn power_groups_to_the_right_and_the_rest_to_the_left() {
    assert_eq!(
        infix_to_ast(tokens(&["2", "^", "3", "^", "2"])),
        Ok(binary(
            BinaryOperator::Index,
            operand("2"),
            Box::new(binary(BinaryOperator::Index, operand("3"), operand("2")))
        ))
    );
    assert_eq!(
        infix_to_ast(tokens(&["8", "/", "4", "/", "2"])),
        Ok(binary(
            BinaryOperator::Division,
            Box::new(binary(BinaryOperator::Division, operand("8"), operand("4"))),
            operand("2")
        ))
    );
    assert_eq!(
        infix_to_ast(tokens(&["2", "*", "3", "^", "2"])),
        Ok(binary(
            BinaryOperator::Multiplication,
            operand("2"),
            Box::new(binary(BinaryOperator::Index, operand("3"), operand("2")))
        ))
    );
}

#[test]
fn names_become_placeholders_whatever_they_spell() {
    assert_eq!(
        infix_to_ast(tokens(&["x", "*", "inf"])),
        Ok(binary(
            BinaryOperator::Multiplication,
            Box::new(AbstractNode::Placeholder { arg_name: "x".to_string() }),
            Box::new(AbstractNode::Placeholder { arg_name: "inf".to_string() })
        ))
    );
    for name in ["inf", "nan", "infinity", "NaN", "Inf"] {
        assert_eq!(
            infix_to_ast(tokens(&[name])),
            Ok(AbstractNode::Placeholder { arg_name: name.to_string() })
        );
    }
    assert_eq!(infix_to_ast(tokens(&["1e3"])), Ok(*operand("1e3")));
    assert_eq!(
        infix_to_ast(tokens(&[""])),
        Ok(AbstractNode::Placeholder { arg_name: String::new() })
    );
}

#[test]
fn evaluate_reports_the_leftmost_placeholder() {
    let tree = infix_to_ast(tokens(&["1", "+", "b", "*", "a"])).unwrap();
    assert_eq!(
        tree.evaluate(&number, &apply),
        Err(EvaluationError::UnresolvedPlaceholder { name: "b".to_string() })
    );
    let plain = infix_to_ast(tokens(&["1", "+", "2", "*", "3"])).unwrap();
    assert_eq!(plain.evaluate(&number, &apply), Ok(7.0));
}

#[test]
fn evaluation_goes_left_to_right_through_the_given_arithmetic() {
    let tree = infix_to_ast(tokens(&["1", "-", "2", "*", "3"])).unwrap();
    let text = |s: &str| s.to_string();
    let show = |operation: BinaryOperator, l: String, r: String| {
        format!("({} {:?} {})", l, operation, r)
    };
    assert_eq!(tree.evaluate(&text, &show), Ok("(1 Subtraction (2 Multiplication 3))".to_string()));
}

#[test]
fn clone_copies_a_tree() {
    let tree = infix_to_ast(tokens(&["a", "+", "2", "*", "3"])).unwrap();
    assert_eq!(tree.clone(), tree);
}

#[test]
fn tokens_are_classified_by_their_text() {
    assert!(matches!(classify("42"), TokenKind::Numeral));
    assert!(matches!(classify("1e5"), TokenKind::Numeral));
    assert!(matches!(classify("nan"), TokenKind::Identifier));
    assert!(matches!(classify("inf"), TokenKind::Identifier));
    assert!(matches!(classify("-inf"), TokenKind::Numeral));
    assert!(matches!(classify("+5"), TokenKind::Numeral));
    assert!(matches!(classify("x"), TokenKind::Identifier));
    assert!(matches!(classify("Foo"), TokenKind::Identifier));
    assert!(matches!(classify(""), TokenKind::Identifier));
    assert!(matches!(classify("("), TokenKind::OpenParenthesis));
    assert!(matches!(classify(")"), TokenKind::CloseParenthesis));
    assert!(matches!(classify("1.2.3"), TokenKind::InvalidNumeral));
    assert!(matches!(classify("."), TokenKind::InvalidNumeral));
    assert!(matches!(classify("2a"), TokenKind::Unknown));
    assert!(matches!(classify("%"), TokenKind::Unknown));
    assert!(matches!(classify("()"), TokenKind::Unknown));
    match classify("^") {
        TokenKind::Operator(info) => {
            assert_eq!(info.operation, BinaryOperator::Index);
            assert_eq!(info.precedence, 4);
        }
        other => panic!("{:?}", other),
    }
    match classify("-") {
        TokenKind::Operator(info) => assert_eq!(info.operation, BinaryOperator::Subtraction),
        other => panic!("{:?}", other),
    }
}

#[test]
fn functions_can_be_copied() {
    let function = parse_function_assignment("fn f(a,b){a^b}".to_string()).unwrap();
    assert_eq!(function.clone(), function);
}
