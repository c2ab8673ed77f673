use calculator::utils::operators::{
    get_operator_info, operator_for, Associativity, BinaryOperator,
};

#[test]
fn operator_table_has_the_five_operators() {
    let rows = [
        ("^", BinaryOperator::Index, 4, Associativity::Right),
        ("*", BinaryOperator::Multiplication, 3, Associativity::Left),
        ("/", BinaryOperator::Division, 3, Associativity::Left),
        ("+", BinaryOperator::Addition, 2, Associativity::Left),
        ("-", BinaryOperator::Subtraction, 2, Associativity::Left),
    ];
    for (symbol, operation, precedence, associativity) in rows {
        let info = get_operator_info(symbol).unwrap();
        assert_eq!(info.operation, operation);
        assert_eq!(info.precedence, precedence);
        assert_eq!(info.associativity, associativity);
    }
}

#[test]
fn operator_table_has_nothing_else() {
    for symbol in ["", "(", ")", "%", "++", "+ ", "a", "1", "÷", "**", "^^"] {
        assert!(get_operator_info(symbol).is_none(), "{}", symbol);
    }
}

#[test]
fn an_operator_on_the_stack_yields_to_tighter_ones() {
    let plus = operator_for('+').unwrap();
    let minus = operator_for('-').unwrap();
    let times = operator_for('*').unwrap();
    let power = operator_for('^').unwrap();
    assert!(plus.applies_before(minus));
    assert!(minus.applies_before(plus));
    assert!(times.applies_before(plus));
    assert!(!plus.applies_before(times));
    assert!(power.applies_before(times));
    assert!(!times.applies_before(power));
    assert!(!power.applies_before(power));
    assert!(operator_for('(').is_none());
}
