use calculator::error::TokenizationError;
use calculator::utils::input::{get_normalized_input, is_function_assignment, is_function_call};

fn tokens(parts: &[&str]) -> Vec<String> {
    parts.iter().map(|x| x.to_string()).collect()
}

#[test]
fn input_test_unary_operators() {
    let result = get_normalized_input("4+-5");
    let expected: Vec<String> = vec!["4", "+", "(", "0", "-", "5", ")"]
        .iter()
        .map(|x| x.to_string())
        .collect();
    assert_eq!(result, Ok(expected))
}

#[test]
fn tokenizer_rejects_the_first_unsupported_character() {
    assert_eq!(get_normalized_input("2 + x_1"), Err(TokenizationError { character: '_' }));
    assert_eq!(get_normalized_input("2 $ 3 # 4"), Err(TokenizationError { character: '$' }));
    assert_eq!(get_normalized_input("A"), Err(TokenizationError { character: 'A' }));
    assert_eq!(get_normalized_input("1,2"), Err(TokenizationError { character: ',' }));
    assert_eq!(get_normalized_input("{1}"), Err(TokenizationError { character: '{' }));
}

#[test]
fn tokenizer_drops_whitespace_and_reads_the_division_sign() {
    assert_eq!(get_normalized_input("2 ÷ 4"), Ok(tokens(&["2", "/", "4"])));
    assert_eq!(
        get_normalized_input(" \t1\u{a0}2 \n*\r3\u{2003}\u{3000}"),
        Ok(tokens(&["12", "*", "3"]))
    );
    assert_eq!(get_normalized_input(""), Ok(tokens(&[])));
    assert_eq!(get_normalized_input("   "), Ok(tokens(&[])));
}

#[test]
fn tokenizer_groups_digits_points_and_letters() {
    assert_eq!(
        get_normalized_input("3.25*(abc+10)^x"),
        Ok(tokens(&["3.25", "*", "(", "abc", "+", "10", ")", "^", "x"]))
    );
    assert_eq!(get_normalized_input("1.2.3"), Ok(tokens(&["1.2.3"])));
    assert_eq!(get_normalized_input("2+1e5"), Ok(tokens(&["2", "+", "1e5"])));
    assert_eq!(get_normalized_input("2a*1e5"), Ok(tokens(&["2a", "*", "1e5"])));
}

#[test]
fn tokenizer_makes_unary_signs_binary() {
    assert_eq!(get_normalized_input("-5"), Ok(tokens(&["(", "0", "-", "5", ")"])));
    assert_eq!(get_normalized_input("+x"), Ok(tokens(&["(", "0", "+", "x", ")"])));
    assert_eq!(
        get_normalized_input("2*-3+4"),
        Ok(tokens(&["2", "*", "(", "0", "-", "3", ")", "+", "4"]))
    );
    assert_eq!(
        get_normalized_input("(-2)"),
        Ok(tokens(&["(", "(", "0", "-", "2", ")", ")"]))
    );
    assert_eq!(get_normalized_input("(1)-2"), Ok(tokens(&["(", "1", ")", "-", "2"])));
    assert_eq!(get_normalized_input("a-b"), Ok(tokens(&["a", "-", "b"])));
    assert_eq!(get_normalized_input("inf-nan"), Ok(tokens(&["inf", "-", "nan"])));
}

#[test]
fn tokenizer_closes_after_the_next_operand_or_at_the_end() {
    assert_eq!(
        get_normalized_input("-(2+3)"),
        Ok(tokens(&["(", "0", "-", "(", "2", ")", "+", "3", ")"]))
    );
    assert_eq!(get_normalized_input("-"), Ok(tokens(&["(", "0", "-", ")"])));
    assert_eq!(get_normalized_input("-("), Ok(tokens(&["(", "0", "-", "(", ")"])));
}

#[test]
fn tokenizer_closes_every_parenthesis_that_it_opens() {
    assert_eq!(
        get_normalized_input("--5"),
        Ok(tokens(&["(", "0", "-", "(", "0", "-", "5", ")", ")"]))
    );
    assert_eq!(
        get_normalized_input("+-+x*2"),
        Ok(tokens(&[
            "(", "0", "+", "(", "0", "-", "(", "0", "+", "x", ")", ")", ")", "*", "2"
        ]))
    );
    assert_eq!(
        get_normalized_input("-(-5)"),
        Ok(tokens(&["(", "0", "-", "(", "(", "0", "-", "5", ")", ")", ")"]))
    );
    assert_eq!(get_normalized_input("--"), Ok(tokens(&["(", "0", "-", "(", "0", "-", ")", ")"])));
    assert_eq!(
        get_normalized_input("2--3"),
        Ok(tokens(&["2", "-", "(", "0", "-", "3", ")"]))
    );
}

#[test]
fn a_sign_after_any_word_is_binary() {
    assert_eq!(get_normalized_input("1.2.3-4"), Ok(tokens(&["1.2.3", "-", "4"])));
    assert_eq!(get_normalized_input("2a+1"), Ok(tokens(&["2a", "+", "1"])));
    assert_eq!(get_normalized_input("1e-5"), Ok(tokens(&["1e", "-", "5"])));
}

#[test]
fn unary_sign_equals_its_written_out_form() {
    assert_eq!(get_normalized_input("4+-5"), get_normalized_input("4+(0-5)"));
}

#[test]
fn definitions_start_with_the_keyword() {
    assert!(is_function_assignment("fn foo(a){a}"));
    assert!(is_function_assignment("fn"));
    assert!(is_function_assignment("fnord"));
    assert!(!is_function_assignment(" fn foo(a){a}"));
    assert!(!is_function_assignment("f"));
    assert!(!is_function_assignment(""));
    assert!(!is_function_assignment("foo(1)"));
}

#[test]
fn calls_have_letters_before_the_first_parenthesis() {
    assert!(is_function_call("foo(1,2)"));
    assert!(is_function_call("Foo(1,2)"));
    assert!(is_function_call("foo"));
    assert!(is_function_call("(2+3)*4"));
    assert!(is_function_call(""));
    assert!(!is_function_call("2+3"));
    assert!(!is_function_call("foo2(1)"));
    assert!(!is_function_call("foo (1)"));
    assert!(!is_function_call("2*(3)"));
}

#[test]
fn inserted_parentheses_are_balanced() {
    let alphabet = ['1', 'a', '.', '+', '-', '*', '(', ')', ' '];
    let mut texts: Vec<String> = vec![String::new()];
    let mut start = 0;
    for _ in 0..5 {
        let end = texts.len();
        for k in start..end {
            for c in alphabet {
                let mut longer = texts[k].clone();
                longer.push(c);
                texts.push(longer);
            }
        }
        start = end;
    }
    for text in &texts {
        let tokens = get_normalized_input(text).unwrap();
        let chars: Vec<char> = text.chars().filter(|c| *c != ' ').collect();
        let mut unary = 0;
        for (i, c) in chars.iter().enumerate() {
            let sign = *c == '+' || *c == '-';
            if sign && (i == 0 || "+-*/^(".contains(chars[i - 1])) {
                unary += 1;
            }
        }
        let opened = tokens.iter().filter(|t| *t == "(").count();
        let closed = tokens.iter().filter(|t| *t == ")").count();
        assert_eq!(opened, chars.iter().filter(|c| **c == '(').count() + unary, "{:?}", text);
        assert_eq!(closed, chars.iter().filter(|c| **c == ')').count() + unary, "{:?}", text);
    }
}
