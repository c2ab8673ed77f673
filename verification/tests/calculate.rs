use calculator::error::CalculationError;
use calculator::rpn::calculate::perform_calculations;
use calculator::utils::operators::BinaryOperator;

fn number(text: &str) -> f64 {
    text.parse::<f64>().unwrap()
}

fn apply(operation: BinaryOperator, l: f64, r: f64) -> f64 {
    match operation {
        BinaryOperator::Addition => l + r,
        BinaryOperator::Subtraction => l - r,
        BinaryOperator::Multiplication => l * r,
        BinaryOperator::Division => l / r,
        BinaryOperator::Index => l.powf(r),
    }
}

fn run(input: Vec<String>) -> Result<f64, CalculationError> {
    perform_calculations(input, &number, &apply)
}

#[test]
fn test_basic_addition() {
    assert_eq!(run(vec!["2".to_string(), "3".to_string(), "+".to_string()]), Ok(5.0));
}

#[test]
fn test_basic_subtraction() {
    assert_eq!(run(vec!["5".to_string(), "3".to_string(), "-".to_string()]), Ok(2.0));
}

#[test]
fn test_basic_multiplication() {
    assert_eq!(run(vec!["4".to_string(), "6".to_string(), "*".to_string()]), Ok(24.0));
}

#[test]
fn test_basic_division() {
    assert_eq!(run(vec!["15".to_string(), "3".to_string(), "/".to_string()]), Ok(5.0));
}

#[test]
fn test_chained_operations() {
    assert_eq!(
        run(vec![
            "4".to_string(),
            "2".to_string(),
            "3".to_string(),
            "+".to_string(),
            "*".to_string(),
        ]),
        Ok(20.0)
    );
}

#[test]
fn test_complex_expression() {
    assert_eq!(
        run(vec![
            "1".to_string(),
            "1".to_string(),
            "+".to_string(),
            "7".to_string(),
            "/".to_string(),
            "15".to_string(),
            "-".to_string(),
        ]),
        Ok(-14.714285714285714)
    );
}

#[test]
fn test_single_number() {
    assert_eq!(run(vec!["42".to_string()]), Ok(42.0));
}

#[test]
fn test_negative_result() {
    assert_eq!(run(vec!["0".to_string(), "5".to_string(), "-".to_string()]), Ok(-5.0));
}

#[test]
fn calculate_test_foo() {
    assert_eq!(
        run(vec![
            "4".to_string(),
            "1".to_string(),
            "5".to_string(),
            "-".to_string(),
            "+".to_string(),
        ]),
        Ok(0.0)
    );
}

#[test]
fn test_power_takes_the_right_value_as_exponent() {
    assert_eq!(run(vec!["2".to_string(), "10".to_string(), "^".to_string()]), Ok(1024.0));
}

#[test]
fn stack_machine_errors() {
    assert_eq!(run(vec![]), Err(CalculationError::EmptyInput));
    assert_eq!(
        run(vec!["nan".to_string()]),
        Err(CalculationError::InvalidNumber { token: "nan".to_string() })
    );
    assert_eq!(
        run(vec!["+".to_string()]),
        Err(CalculationError::InvalidNumber { token: "+".to_string() })
    );
    assert_eq!(
        run(vec!["1".to_string(), "2".to_string()]),
        Err(CalculationError::InputTooShort)
    );
    assert_eq!(
        run(vec!["1".to_string(), "+".to_string(), "2".to_string()]),
        Err(CalculationError::NotEnoughOperands)
    );
    assert_eq!(
        run(vec!["1".to_string(), "2".to_string(), "3".to_string()]),
        Err(CalculationError::InvalidExpression { values: 3 })
    );
    assert_eq!(
        run(vec!["1".to_string(), "x".to_string(), "+".to_string()]),
        Err(CalculationError::InvalidNumber { token: "x".to_string() })
    );
    assert_eq!(
        run(vec!["1".to_string(), "2".to_string(), "+".to_string(), "+".to_string()]),
        Err(CalculationError::NotEnoughOperands)
    );
}
