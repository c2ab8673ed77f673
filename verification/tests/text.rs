use calculator::utils::text::{
    alphabetic, digit, find, lowercase, matches_at, only_letters, remove_char, single, split_at,
    to_chars, to_strings, to_text, whitespace,
};

fn chars(text: &str) -> Vec<char> {
    text.chars().collect()
}

#[test]
fn character_classes_are_those_of_the_standard_library() {
    for code in 0..=0x10ffff_u32 {
        if let Some(c) = char::from_u32(code) {
            assert_eq!(whitespace(c), c.is_whitespace(), "{:?}", c);
            assert_eq!(alphabetic(c), c.is_ascii_alphabetic(), "{:?}", c);
            assert_eq!(digit(c), c.is_ascii_digit(), "{:?}", c);
            assert_eq!(lowercase(c), c.is_ascii_lowercase(), "{:?}", c);
        }
    }
}

#[test]
fn texts_and_characters_convert_both_ways() {
    assert_eq!(to_chars("a÷b"), vec!['a', '÷', 'b']);
    assert_eq!(to_chars(""), Vec::<char>::new());
    assert_eq!(to_text(&['a', '÷', 'b']), "a÷b");
    assert_eq!(to_text(&[]), "");
    assert_eq!(single('x'), vec!['x']);
    assert_eq!(to_strings(&vec![chars("ab"), chars(""), chars("c")]), vec!["ab", "", "c"]);
}

#[test]
fn only_letters_holds_of_the_empty_text() {
    assert!(only_letters(&chars("")));
    assert!(only_letters(&chars("abcXYZ")));
    assert!(!only_letters(&chars("abc1")));
    assert!(!only_letters(&chars("a b")));
    assert!(!only_letters(&chars("é")));
}

#[test]
fn remove_char_keeps_the_rest_in_order() {
    assert_eq!(remove_char(&chars(" a  b c "), ' '), chars("abc"));
    assert_eq!(remove_char(&chars("a\tb"), ' '), chars("a\tb"));
    assert_eq!(remove_char(&chars("   "), ' '), chars(""));
}

#[test]
fn find_gives_the_first_occurrence_or_the_length() {
    let text = chars("fn foo(fn)");
    assert_eq!(find(&text, &chars("fn"), 0), 0);
    assert_eq!(find(&text, &chars("fn"), 1), 7);
    assert_eq!(find(&text, &chars("fn"), 8), 10);
    assert_eq!(find(&text, &chars("("), 0), 6);
    assert_eq!(find(&text, &chars("{"), 0), 10);
    assert_eq!(find(&text, &chars("fn"), 10), 10);
    assert_eq!(find(&text, &chars("fn"), 25), 10);
    assert_eq!(find(&chars("f"), &chars("fn"), 0), 1);
    assert!(matches_at(&text, &chars("foo"), 3));
    assert!(!matches_at(&text, &chars("foo"), 4));
    assert!(!matches_at(&text, &chars("fn)x"), 7));
}

#[test]
fn split_gives_one_piece_more_than_separators() {
    assert_eq!(split_at(&chars("a,b"), ','), vec![chars("a"), chars("b")]);
    assert_eq!(split_at(&chars(""), ','), vec![chars("")]);
    assert_eq!(split_at(&chars(","), ','), vec![chars(""), chars("")]);
    assert_eq!(split_at(&chars("ab,,c,"), ','), vec![chars("ab"), chars(""), chars("c"), chars("")]);
    assert_eq!(split_at(&chars("abc"), ','), vec![chars("abc")]);
}
