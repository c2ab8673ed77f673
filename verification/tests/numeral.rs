use calculator::utils::numeral::Numeral;

fn accepted(text: &str) -> bool {
    Numeral::new(text.to_string()).is_ok()
}

#[test]
fn numerals_are_decimals_with_an_optional_exponent() {
    for text in [
        "0", "42", "3.25", "5.", ".5", "1e5", "1E5", "1e+5", "1e-5", "1.5e10", ".5e1", "5.e1",
        "+1", "-1", "+.5", "-5.", "007", "1e007", "-0",
    ] {
        assert!(accepted(text), "{}", text);
    }
    for text in [
        "", ".", "+", "-", "e5", "1e", "1e+", "1e-", "1.2.3", "1..2", "1e5.5", "1e5e5", "--1",
        "+-1", "1+", "1 ", " 1", "1_000", "0x10", "1f", "e", ".e1", "+.", "1,5",
    ] {
        assert!(!accepted(text), "{}", text);
    }
}

#[test]
fn numerals_are_the_special_words_in_any_case() {
    for text in [
        "inf", "INF", "Inf", "iNf", "infinity", "INFINITY", "Infinity", "nan", "NaN", "NAN",
        "+inf", "-inf", "+nan", "-NaN", "-Infinity",
    ] {
        assert!(accepted(text), "{}", text);
    }
    for text in ["in", "infi", "infinit", "infinityy", "na", "nane", "i", "+", "++inf", "inf.", "inf1"] {
        assert!(!accepted(text), "{}", text);
    }
}

#[test]
fn a_numeral_keeps_its_text() {
    let numeral = Numeral::new("1.50".to_string()).unwrap();
    assert_eq!(numeral.as_str(), "1.50");
    assert_eq!(numeral.clone(), numeral);
    assert_eq!(Numeral::new("1.5.0".to_string()), Err("1.5.0".to_string()));
}

#[test]
fn numerals_are_the_texts_that_parse_as_floats() {
    let alphabet = ['0', '7', '.', 'e', 'E', '+', '-', 'i', 'n', 'f', 'a', 'N', 'x', ' '];
    let mut texts: Vec<String> = vec![String::new()];
    let mut start = 0;
    for _ in 0..4 {
        let end = texts.len();
        for k in start..end {
            for c in alphabet {
                let mut longer = texts[k].clone();
                longer.push(c);
                texts.push(longer);
            }
        }
        start = end;
    }
    for word in ["infinity", "Infinity", "-INFINITY", "infinit", "infinityx", "1.5e+300", "1e5000"] {
        texts.push(word.to_string());
    }
    let mut numerals = 0;
    for text in &texts {
        let parses = text.parse::<f64>().is_ok();
        assert_eq!(accepted(text), parses, "{:?}", text);
        if parses {
            numerals += 1;
        }
    }
    assert!(numerals > 100);
}
