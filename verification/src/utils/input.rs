//! The tokenizer, and the two tests that tell a definition and a call from a
//! plain expression.

use vstd::prelude::*;
use crate::error::TokenizationError;
use crate::utils::numeral::is_float_text;
use crate::utils::operators::{operator_for, operator_of_char};
use crate::utils::text::{
    all_alphabetic, digit, find, find_from, is_digit, is_lowercase, is_whitespace,
    lemma_views_push, lowercase, only_letters, single, to_chars, to_strings, views, whitespace,
};

verus! {

/// The characters that are a token by themselves: the five operators and
/// the two parentheses.
pub open spec fn is_symbol(c: char) -> bool {
    c == '+' || c == '-' || c == '*' || c == '/' || c == '^' || c == '(' || c == ')'
}

/// The characters that a numeral or a name is written with: lowercase
/// letters, digits and the decimal point.
pub open spec fn is_word_char(c: char) -> bool {
    is_lowercase(c) || is_digit(c) || c == '.'
}

/// The characters that a token can hold.
pub open spec fn is_supported(c: char) -> bool {
    is_symbol(c) || is_word_char(c)
}

/// The input without its whitespace, and with `/` for the division sign.
pub open spec fn normalized(input: Seq<char>) -> Seq<char> {
    input.filter(|c: char| !is_whitespace(c)).map_values(
        |c: char|
            if c == '\u{f7}' {
                '/'
            } else {
                c
            },
    )
}

/// A token after which an operand is expected: an operator or an opening
/// parenthesis.
pub open spec fn opens_operand(token: Seq<char>) -> bool {
    token.len() == 1 && (token[0] == '(' || operator_of_char(token[0]) is Some)
}

/// A `+` or `-` that comes after `tokens` is unary: nothing stands before
/// it, or an operator or an opening parenthesis does.
pub open spec fn is_unary_position(tokens: Seq<Seq<char>>) -> bool {
    tokens.len() == 0 || opens_operand(tokens.last())
}

/// `tokens` with `n` closing parentheses after them.
pub open spec fn closed(tokens: Seq<Seq<char>>, n: nat) -> Seq<Seq<char>>
    decreases n,
{
    if n == 0 {
        tokens
    } else {
        closed(tokens, (n - 1) as nat).push(seq![')'])
    }
}

/// The tokenizer's state between two characters.
pub ghost struct Scan {
    /// The tokens that are complete.
    pub tokens: Seq<Seq<char>>,
    /// The characters of the numeral or name in progress.
    pub pending: Seq<char>,
    /// The number of parentheses that were opened before unary signs and
    /// await their `)`.
    pub closing: nat,
}

/// Completes the token in progress, if there is one, and closes after it
/// every parenthesis that a unary sign has opened.
pub open spec fn flush(s: Scan) -> Scan {
    if s.pending.len() == 0 {
        s
    } else {
        Scan {
            tokens: closed(s.tokens.push(s.pending), s.closing),
            pending: Seq::empty(),
            closing: 0,
        }
    }
}

/// The state after one more character, which is a supported one.
///
/// A symbol completes the token in progress and is a token by itself; a
/// unary `+` or `-` is given the operand `0` and an opening parenthesis
/// before that, which is closed after the operand that follows. Any other
/// character joins the token in progress.
pub open spec fn scan_char(s: Scan, c: char) -> Scan {
    if is_symbol(c) {
        let f = flush(s);
        if (c == '+' || c == '-') && is_unary_position(f.tokens) {
            Scan {
                tokens: f.tokens.push(seq!['(']).push(seq!['0']).push(seq![c]),
                pending: f.pending,
                closing: f.closing + 1,
            }
        } else {
            Scan { tokens: f.tokens.push(seq![c]), pending: f.pending, closing: f.closing }
        }
    } else {
        Scan { tokens: s.tokens, pending: s.pending.push(c), closing: s.closing }
    }
}

/// The state after the characters `chars`.
pub open spec fn scan(chars: Seq<char>) -> Scan
    decreases chars.len(),
{
    if chars.len() == 0 {
        Scan { tokens: Seq::empty(), pending: Seq::empty(), closing: 0 }
    } else {
        scan_char(scan(chars.drop_last()), chars.last())
    }
}

/// The tokens at the end of the input: the token in progress is completed,
/// and every parenthesis that is still awaited is closed.
pub open spec fn finish(s: Scan) -> Seq<Seq<char>> {
    closed(
        if s.pending.len() > 0 {
            s.tokens.push(s.pending)
        } else {
            s.tokens
        },
        s.closing,
    )
}

/// The tokens of a normalized input whose characters are all supported.
pub open spec fn tokens_of(chars: Seq<char>) -> Seq<Seq<char>> {
    finish(scan(chars))
}

/// The first character of `chars` that is not supported, if there is one.
pub open spec fn first_unsupported(chars: Seq<char>) -> Option<char>
    decreases chars.len(),
{
    if chars.len() == 0 {
        None
    } else {
        match first_unsupported(chars.drop_last()) {
            Some(c) => Some(c),
            None => if is_supported(chars.last()) {
                None
            } else {
                Some(chars.last())
            },
        }
    }
}

/// What the tokenizer makes of an input: the tokens of the normalized input,
/// or its first unsupported character.
pub open spec fn tokenize(input: Seq<char>) -> Result<Seq<Seq<char>>, TokenizationError> {
    let chars = normalized(input);
    match first_unsupported(chars) {
        Some(character) => Err(TokenizationError { character }),
        None => Ok(tokens_of(chars)),
    }
}

/// An unsupported character in a prefix is the first one of the whole.
pub proof fn lemma_first_unsupported_prefix(chars: Seq<char>, n: int)
    requires
        0 <= n <= chars.len(),
        first_unsupported(chars.take(n)) is Some,
    ensures
        first_unsupported(chars) == first_unsupported(chars.take(n)),
    decreases chars.len() - n,
{
    if n < chars.len() {
        assert(chars.take(n + 1).drop_last() =~= chars.take(n));
        lemma_first_unsupported_prefix(chars, n + 1);
    } else {
        assert(chars.take(n) =~= chars);
    }
}

/// The first unsupported character, said without recursion: every character
/// is supported where there is none, and otherwise it is an unsupported
/// character with only supported ones before it.
pub proof fn lemma_first_unsupported(chars: Seq<char>)
    ensures
        match first_unsupported(chars) {
            None => forall|i: int| 0 <= i < chars.len() ==> is_supported(#[trigger] chars[i]),
            Some(c) => exists|i: int|
                0 <= i < chars.len() && #[trigger] chars[i] == c && !is_supported(c) && forall|
                    j: int,
                | 0 <= j < i ==> is_supported(#[trigger] chars[j]),
        },
    decreases chars.len(),
{
    if chars.len() > 0 {
        let before = chars.drop_last();
        lemma_first_unsupported(before);
        match first_unsupported(before) {
            Some(c) => {
                let i = choose|i: int|
                    0 <= i < before.len() && #[trigger] before[i] == c && !is_supported(c)
                        && forall|j: int| 0 <= j < i ==> is_supported(#[trigger] before[j]);
                assert forall|j: int| 0 <= j < i implies is_supported(#[trigger] chars[j]) by {
                    assert(before[j] == chars[j]);
                }
            },
            None => {
                assert forall|j: int| 0 <= j < before.len() implies is_supported(
                    #[trigger] chars[j],
                ) by {
                    assert(before[j] == chars[j]);
                }
            },
        }
    }
}

/// The tokens `+` and `-`.
pub open spec fn is_sign_token(token: Seq<char>) -> bool {
    token == seq!['+'] || token == seq!['-']
}

/// Every `+` and `-` among `tokens` is binary: what stands before it is
/// neither an operator nor an opening parenthesis.
pub open spec fn signs_are_binary(tokens: Seq<Seq<char>>) -> bool {
    forall|i: int|
        0 <= i < tokens.len() && is_sign_token(#[trigger] tokens[i]) ==> i > 0 && !opens_operand(
            tokens[i - 1],
        )
}

/// A token is one symbol, or a word of one or more letters, digits and
/// decimal points.
pub open spec fn is_token(token: Seq<char>) -> bool {
    ||| token.len() == 1 && is_symbol(token[0])
    ||| token.len() > 0 && forall|k: int|
        0 <= k < token.len() ==> is_word_char(#[trigger] token[k])
}

/// Every item of `tokens` is a token.
pub open spec fn are_tokens(tokens: Seq<Seq<char>>) -> bool {
    forall|i: int| 0 <= i < tokens.len() ==> is_token(#[trigger] tokens[i])
}

/// What holds of the tokenizer's state after supported characters.
pub open spec fn scan_is_sound(s: Scan) -> bool {
    &&& signs_are_binary(s.tokens)
    &&& are_tokens(s.tokens)
    &&& forall|k: int| 0 <= k < s.pending.len() ==> is_word_char(#[trigger] s.pending[k])
}

/// A symbol is a token that is neither a numeral nor a name, and an operand
/// is expected after it unless it is the closing parenthesis.
pub proof fn lemma_symbol_is_no_operand(c: char)
    requires
        is_symbol(c),
    ensures
        !is_float_text(seq![c]),
        !all_alphabetic(seq![c]),
        opens_operand(seq![c]) <==> c != ')',
{
    let token = seq![c];
    assert(token[0] == c);
    let u = crate::utils::numeral::unsigned(token);
    if c == '+' || c == '-' {
        assert(u.len() == 0);
    } else {
        assert(u == token);
        assert(!is_digit(u[0]) && u[0] != '.');
    }
    assert(!crate::utils::numeral::is_decimal(u));
    assert(!crate::utils::numeral::is_number(u));
    assert(!crate::utils::numeral::is_special(u));
    assert(!crate::utils::text::is_alphabetic(token[0]));
}

proof fn lemma_single_token(c: char)
    requires
        is_supported(c),
    ensures
        is_sign_token(seq![c]) <==> c == '+' || c == '-',
        is_token(seq![c]),
        opens_operand(seq![c]) <==> c == '(' || operator_of_char(c) is Some,
{
    assert(seq![c][0] == c);
    assert(seq!['+'][0] == '+');
    assert(seq!['-'][0] == '-');
}

proof fn lemma_push_keeps_sound(tokens: Seq<Seq<char>>, token: Seq<char>)
    requires
        signs_are_binary(tokens),
        are_tokens(tokens),
        is_token(token),
        is_sign_token(token) ==> tokens.len() > 0 && !opens_operand(tokens.last()),
    ensures
        signs_are_binary(tokens.push(token)),
        are_tokens(tokens.push(token)),
{
    let after = tokens.push(token);
    assert forall|i: int| 0 <= i < after.len() && is_sign_token(#[trigger] after[i]) implies i > 0
        && !opens_operand(after[i - 1]) by {
        if i < tokens.len() {
            assert(is_sign_token(tokens[i]));
        }
    }
    assert forall|i: int| 0 <= i < after.len() implies is_token(#[trigger] after[i]) by {
        if i < tokens.len() {
            assert(is_token(tokens[i]));
        }
    }
}

proof fn lemma_closed_keeps_sound(tokens: Seq<Seq<char>>, n: nat)
    requires
        signs_are_binary(tokens),
        are_tokens(tokens),
    ensures
        signs_are_binary(closed(tokens, n)),
        are_tokens(closed(tokens, n)),
        closed(tokens, n).len() == tokens.len() + n,
        n > 0 ==> closed(tokens, n).last() == seq![')'],
        n == 0 ==> closed(tokens, n) == tokens,
    decreases n,
{
    if n > 0 {
        lemma_closed_keeps_sound(tokens, (n - 1) as nat);
        lemma_single_token(')');
        lemma_push_keeps_sound(closed(tokens, (n - 1) as nat), seq![')']);
    }
}

proof fn lemma_word_keeps_sound(tokens: Seq<Seq<char>>, word: Seq<char>)
    requires
        signs_are_binary(tokens),
        are_tokens(tokens),
        word.len() > 0,
        forall|k: int| 0 <= k < word.len() ==> is_word_char(#[trigger] word[k]),
    ensures
        signs_are_binary(tokens.push(word)),
        are_tokens(tokens.push(word)),
        !opens_operand(word),
{
    assert(is_word_char(word[0]));
    assert(seq!['+'][0] == '+');
    assert(seq!['-'][0] == '-');
    lemma_push_keeps_sound(tokens, word);
}

proof fn lemma_flush_keeps_sound(s: Scan)
    requires
        scan_is_sound(s),
    ensures
        scan_is_sound(flush(s)),
        flush(s).pending.len() == 0,
{
    if s.pending.len() > 0 {
        lemma_word_keeps_sound(s.tokens, s.pending);
        lemma_closed_keeps_sound(s.tokens.push(s.pending), s.closing);
    }
}

proof fn lemma_scan_char_keeps_sound(s: Scan, c: char)
    requires
        scan_is_sound(s),
        is_supported(c),
    ensures
        scan_is_sound(scan_char(s, c)),
{
    if is_symbol(c) {
        let f = flush(s);
        lemma_flush_keeps_sound(s);
        if (c == '+' || c == '-') && is_unary_position(f.tokens) {
            lemma_single_token('(');
            lemma_single_token('0');
            lemma_single_token(c);
            assert(f.tokens.push(seq!['(']).push(seq!['0']).last() == seq!['0']);
            lemma_push_keeps_sound(f.tokens, seq!['(']);
            lemma_push_keeps_sound(f.tokens.push(seq!['(']), seq!['0']);
            lemma_push_keeps_sound(f.tokens.push(seq!['(']).push(seq!['0']), seq![c]);
        } else {
            lemma_single_token(c);
            lemma_push_keeps_sound(f.tokens, seq![c]);
        }
    } else {
        let after = scan_char(s, c);
        assert forall|k: int| 0 <= k < after.pending.len() implies is_word_char(
            #[trigger] after.pending[k],
        ) by {
            if k < s.pending.len() {
                assert(after.pending[k] == s.pending[k]);
            }
        }
    }
}

proof fn lemma_scan_is_sound(chars: Seq<char>)
    requires
        first_unsupported(chars) is None,
    ensures
        scan_is_sound(scan(chars)),
    decreases chars.len(),
{
    if chars.len() > 0 {
        lemma_scan_is_sound(chars.drop_last());
        lemma_scan_char_keeps_sound(scan(chars.drop_last()), chars.last());
    }
}

/// What the tokenizer puts out is well formed. Each item is a token: one
/// symbol, or a word of letters, digits and decimal points. And every `+`
/// and `-` is binary: a word or a closing parenthesis stands before it, so
/// the parser never meets a unary sign.
pub proof fn lemma_tokens_are_sound(input: Seq<char>)
    ensures
        tokenize(input) matches Ok(tokens) ==> are_tokens(tokens) && signs_are_binary(tokens),
{
    let chars = normalized(input);
    if first_unsupported(chars) is None {
        lemma_scan_is_sound(chars);
        let s = scan(chars);
        if s.pending.len() > 0 {
            lemma_word_keeps_sound(s.tokens, s.pending);
            lemma_closed_keeps_sound(s.tokens.push(s.pending), s.closing);
        } else {
            lemma_closed_keeps_sound(s.tokens, s.closing);
        }
    }
}

/// The number of times that `token` occurs among `tokens`.
pub open spec fn occurrences(tokens: Seq<Seq<char>>, token: Seq<char>) -> nat
    decreases tokens.len(),
{
    if tokens.len() == 0 {
        0
    } else {
        occurrences(tokens.drop_last(), token) + if tokens.last() == token {
            1nat
        } else {
            0nat
        }
    }
}

/// The number of times that `c` occurs in `chars`.
pub open spec fn count_char(chars: Seq<char>, c: char) -> nat
    decreases chars.len(),
{
    if chars.len() == 0 {
        0
    } else {
        count_char(chars.drop_last(), c) + if chars.last() == c {
            1nat
        } else {
            0nat
        }
    }
}

/// The character at index `i` is a unary sign: a `+` or `-` at the start,
/// or right after an operator or an opening parenthesis.
pub open spec fn is_unary_sign(chars: Seq<char>, i: int) -> bool {
    &&& 0 <= i < chars.len()
    &&& chars[i] == '+' || chars[i] == '-'
    &&& i == 0 || chars[i - 1] == '(' || operator_of_char(chars[i - 1]) is Some
}

/// The number of unary signs in `chars`.
pub open spec fn unary_signs(chars: Seq<char>) -> nat
    decreases chars.len(),
{
    if chars.len() == 0 {
        0
    } else {
        unary_signs(chars.drop_last()) + if is_unary_sign(chars, chars.len() - 1) {
            1nat
        } else {
            0nat
        }
    }
}

/// What holds of the parentheses in the tokenizer's state after the
/// supported characters `chars`: an opening one was put in for every unary
/// sign, and for each of these a closing one was put in or is still owed.
pub open spec fn scan_is_matched(s: Scan, chars: Seq<char>) -> bool {
    &&& occurrences(s.tokens, seq!['(']) == count_char(chars, '(') + unary_signs(chars)
    &&& occurrences(s.tokens, seq![')']) + s.closing == count_char(chars, ')') + unary_signs(
        chars,
    )
    &&& forall|k: int| 0 <= k < s.pending.len() ==> is_word_char(#[trigger] s.pending[k])
    &&& if s.pending.len() > 0 {
        chars.len() > 0 && is_word_char(chars.last())
    } else if chars.len() == 0 {
        s.tokens.len() == 0
    } else {
        s.tokens.len() > 0 && s.tokens.last() == seq![chars.last()] && is_symbol(chars.last())
    }
}

proof fn lemma_occurrences_push(tokens: Seq<Seq<char>>, token: Seq<char>, of: Seq<char>)
    ensures
        occurrences(tokens.push(token), of) == occurrences(tokens, of) + if token == of {
            1nat
        } else {
            0nat
        },
{
    assert(tokens.push(token).drop_last() =~= tokens);
}

proof fn lemma_occurrences_closed(tokens: Seq<Seq<char>>, n: nat)
    ensures
        occurrences(closed(tokens, n), seq!['(']) == occurrences(tokens, seq!['(']),
        occurrences(closed(tokens, n), seq![')']) == occurrences(tokens, seq![')']) + n,
    decreases n,
{
    if n > 0 {
        lemma_occurrences_closed(tokens, (n - 1) as nat);
        lemma_occurrences_push(closed(tokens, (n - 1) as nat), seq![')'], seq!['(']);
        lemma_occurrences_push(closed(tokens, (n - 1) as nat), seq![')'], seq![')']);
        lemma_singles_differ(')', '(');
    }
}

proof fn lemma_singles_differ(a: char, b: char)
    ensures
        seq![a] == seq![b] <==> a == b,
{
    assert(seq![a][0] == a);
    assert(seq![b][0] == b);
}

proof fn lemma_word_is_no_parenthesis(word: Seq<char>)
    requires
        word.len() > 0,
        forall|k: int| 0 <= k < word.len() ==> is_word_char(#[trigger] word[k]),
    ensures
        word != seq!['('],
        word != seq![')'],
        !opens_operand(word),
{
    assert(is_word_char(word[0]));
    assert(seq!['('][0] == '(');
    assert(seq![')'][0] == ')');
}

proof fn lemma_scan_char_keeps_matched(s: Scan, chars: Seq<char>, c: char)
    requires
        scan_is_matched(s, chars),
        is_supported(c),
    ensures
        scan_is_matched(scan_char(s, c), chars.push(c)),
{
    let after = chars.push(c);
    let open = seq!['('];
    let close = seq![')'];
    assert(after.drop_last() =~= chars);
    assert(after.last() == c);
    if chars.len() > 0 {
        assert(after[after.len() - 2] == chars.last());
    }
    if is_symbol(c) {
        let f = flush(s);
        if s.pending.len() > 0 {
            let read = s.tokens.push(s.pending);
            lemma_word_is_no_parenthesis(s.pending);
            lemma_occurrences_push(s.tokens, s.pending, open);
            lemma_occurrences_push(s.tokens, s.pending, close);
            lemma_occurrences_closed(read, s.closing);
            lemma_closed_last(read, s.closing);
            assert(!is_unary_position(f.tokens));
            assert(!is_unary_sign(after, after.len() - 1));
        } else if chars.len() > 0 {
            lemma_single_token(chars.last());
            assert(is_unary_position(f.tokens) <==> chars.last() == '(' || operator_of_char(
                chars.last(),
            ) is Some);
        }
        lemma_singles_differ('0', '(');
        lemma_singles_differ('0', ')');
        lemma_singles_differ(c, '(');
        lemma_singles_differ(c, ')');
        lemma_singles_differ('(', ')');
        if (c == '+' || c == '-') && is_unary_position(f.tokens) {
            let a = f.tokens.push(open);
            let b = a.push(seq!['0']);
            lemma_occurrences_push(f.tokens, open, open);
            lemma_occurrences_push(f.tokens, open, close);
            lemma_occurrences_push(a, seq!['0'], open);
            lemma_occurrences_push(a, seq!['0'], close);
            lemma_occurrences_push(b, seq![c], open);
            lemma_occurrences_push(b, seq![c], close);
            assert(is_unary_sign(after, after.len() - 1));
        } else {
            lemma_occurrences_push(f.tokens, seq![c], open);
            lemma_occurrences_push(f.tokens, seq![c], close);
            assert(!is_unary_sign(after, after.len() - 1));
        }
    } else {
        let t = scan_char(s, c);
        assert forall|k: int| 0 <= k < t.pending.len() implies is_word_char(
            #[trigger] t.pending[k],
        ) by {
            if k < s.pending.len() {
                assert(t.pending[k] == s.pending[k]);
            }
        }
        assert(!is_unary_sign(after, after.len() - 1));
    }
}

proof fn lemma_closed_last(tokens: Seq<Seq<char>>, n: nat)
    requires
        tokens.len() > 0,
        !opens_operand(tokens.last()),
    ensures
        closed(tokens, n).len() > 0,
        !opens_operand(closed(tokens, n).last()),
    decreases n,
{
    if n > 0 {
        lemma_closed_last(tokens, (n - 1) as nat);
        assert(seq![')'][0] == ')');
    }
}

proof fn lemma_scan_is_matched(chars: Seq<char>)
    requires
        first_unsupported(chars) is None,
    ensures
        scan_is_matched(scan(chars), chars),
    decreases chars.len(),
{
    if chars.len() > 0 {
        lemma_scan_is_matched(chars.drop_last());
        lemma_scan_char_keeps_matched(scan(chars.drop_last()), chars.drop_last(), chars.last());
        assert(chars.drop_last().push(chars.last()) =~= chars);
    }
}

/// Every parenthesis that the tokenizer opens it also closes. Among the
/// tokens there is one `(` more than in the input for each unary sign, and
/// one `)` more for each as well: what the tokenizer adds is balanced.
pub proof fn lemma_insertions_are_matched(input: Seq<char>)
    ensures
        tokenize(input) matches Ok(tokens) ==> {
            &&& occurrences(tokens, seq!['(']) == count_char(normalized(input), '(')
                + unary_signs(normalized(input))
            &&& occurrences(tokens, seq![')']) == count_char(normalized(input), ')')
                + unary_signs(normalized(input))
        },
{
    let chars = normalized(input);
    if first_unsupported(chars) is None {
        lemma_scan_is_matched(chars);
        let s = scan(chars);
        if s.pending.len() > 0 {
            lemma_word_is_no_parenthesis(s.pending);
            lemma_occurrences_push(s.tokens, s.pending, seq!['(']);
            lemma_occurrences_push(s.tokens, s.pending, seq![')']);
            lemma_occurrences_closed(s.tokens.push(s.pending), s.closing);
        } else {
            lemma_occurrences_closed(s.tokens, s.closing);
        }
    }
}

fn symbol(c: char) -> (b: bool)
    ensures
        b == is_symbol(c),
{
    c == '+' || c == '-' || c == '*' || c == '/' || c == '^' || c == '(' || c == ')'
}

fn normalize(input: &[char]) -> (chars: Vec<char>)
    ensures
        chars@ == normalized(input@),
{
    let mut chars: Vec<char> = Vec::new();
    let mut i: usize = 0;
    proof {
        reveal(Seq::filter);
    }
    while i < input.len()
        invariant
            i <= input.len(),
            chars@ == normalized(input@.take(i as int)),
        decreases input.len() - i,
    {
        let c = input[i];
        if !whitespace(c) {
            chars.push(
                if c == '\u{f7}' {
                    '/'
                } else {
                    c
                },
            );
        }
        proof {
            reveal(Seq::filter);
            assert(input@.take(i + 1).drop_last() =~= input@.take(i as int));
        }
        i += 1;
    }
    proof {
        assert(input@.take(i as int) =~= input@);
    }
    chars
}

fn opens(token: &[char]) -> (b: bool)
    ensures
        b == opens_operand(token@),
{
    token.len() == 1 && (token[0] == '(' || operator_for(token[0]).is_some())
}

fn close_all(tokens: &mut Vec<Vec<char>>, n: usize)
    ensures
        views(final(tokens)@) == closed(views(old(tokens)@), n as nat),
{
    let mut k: usize = 0;
    while k < n
        invariant
            k <= n,
            views(tokens@) == closed(views(old(tokens)@), k as nat),
        decreases n - k,
    {
        let close = single(')');
        proof {
            lemma_views_push(tokens@, close);
        }
        tokens.push(close);
        k += 1;
    }
}

fn scan_all(chars: &[char]) -> (result: Result<Vec<Vec<char>>, TokenizationError>)
    ensures
        match result {
            Ok(tokens) => first_unsupported(chars@) is None && views(tokens@) == tokens_of(chars@),
            Err(e) => first_unsupported(chars@) == Some(e.character),
        },
{
    let mut tokens: Vec<Vec<char>> = Vec::new();
    let mut pending: Vec<char> = Vec::new();
    let mut closing: usize = 0;
    let mut i: usize = 0;
    proof {
        assert(chars@.take(0) =~= Seq::<char>::empty());
        assert(views(tokens@) =~= Seq::<Seq<char>>::empty());
    }
    while i < chars.len()
        invariant
            i <= chars.len(),
            closing <= i,
            first_unsupported(chars@.take(i as int)) is None,
            scan(chars@.take(i as int)) == (Scan {
                tokens: views(tokens@),
                pending: pending@,
                closing: closing as nat,
            }),
        decreases chars.len() - i,
    {
        let c = chars[i];
        proof {
            assert(chars@.take(i + 1).drop_last() =~= chars@.take(i as int));
        }
        if symbol(c) {
            if pending.len() > 0 {
                proof {
                    lemma_views_push(tokens@, pending);
                }
                tokens.push(pending);
                pending = Vec::new();
                close_all(&mut tokens, closing);
                closing = 0;
            }
            let unary = (c == '+' || c == '-') && (tokens.len() == 0 || opens(
                tokens[tokens.len() - 1].as_slice(),
            ));
            if unary {
                let open = single('(');
                let zero = single('0');
                proof {
                    lemma_views_push(tokens@, open);
                    lemma_views_push(tokens@.push(open), zero);
                }
                tokens.push(open);
                tokens.push(zero);
                closing = closing + 1;
            }
            let sign = single(c);
            proof {
                lemma_views_push(tokens@, sign);
            }
            tokens.push(sign);
        } else if lowercase(c) || digit(c) || c == '.' {
            pending.push(c);
        } else {
            proof {
                lemma_first_unsupported_prefix(chars@, i + 1);
            }
            return Err(TokenizationError { character: c });
        }
        i += 1;
    }
    proof {
        assert(chars@.take(i as int) =~= chars@);
    }
    if pending.len() > 0 {
        proof {
            lemma_views_push(tokens@, pending);
        }
        tokens.push(pending);
    }
    close_all(&mut tokens, closing);
    Ok(tokens)
}

/// Turns the characters of an expression into its tokens, as
/// [`get_normalized_input`] does for a text.
pub fn tokenize_chars(input: &[char]) -> (result: Result<Vec<String>, TokenizationError>)
    ensures
        match result {
            Ok(tokens) => tokenize(input@) == Ok::<Seq<Seq<char>>, TokenizationError>(
                views(tokens@),
            ),
            Err(e) => tokenize(input@) == Err::<Seq<Seq<char>>, TokenizationError>(e),
        },
{
    let chars = normalize(input);
    match scan_all(chars.as_slice()) {
        Ok(parts) => Ok(to_strings(&parts)),
        Err(e) => Err(e),
    }
}

/// Turns an expression into its tokens.
///
/// Whitespace is dropped and the division sign `÷` is read as `/`. Digits,
/// decimal points and lowercase letters that stand together make one token;
/// each operator and parenthesis is a token by itself. A unary `+` or `-`,
/// that is one at the start or after an operator or an opening parenthesis,
/// becomes binary: `( 0` is put before it, and its `)` after the numeral or
/// name that comes next, or at the end where none comes.
///
/// Fails on the first character that no token can hold.
pub fn get_normalized_input(input: &str) -> (result: Result<Vec<String>, TokenizationError>)
    ensures
        match result {
            Ok(tokens) => tokenize(input@) == Ok::<Seq<Seq<char>>, TokenizationError>(
                views(tokens@),
            ),
            Err(e) => tokenize(input@) == Err::<Seq<Seq<char>>, TokenizationError>(e),
        },
{
    let raw = to_chars(input);
    tokenize_chars(raw.as_slice())
}

/// The text of `line` before its first `(`; all of it where it has none.
pub open spec fn callee(line: Seq<char>) -> Seq<char> {
    line.take(find_from(line, seq!['('], 0))
}

/// A line is read as a definition when it starts with the keyword `fn`.
pub fn is_function_assignment(input: &str) -> (b: bool)
    ensures
        b == (input@.len() >= 2 && input@[0] == 'f' && input@[1] == 'n'),
{
    let chars = to_chars(input);
    chars.len() >= 2 && chars[0] == 'f' && chars[1] == 'n'
}

/// A line is read as a call when what stands before its first `(`, or the
/// whole line where it has none, consists of letters only.
pub fn is_function_call(input: &str) -> (b: bool)
    ensures
        b == all_alphabetic(callee(input@)),
{
    let chars = to_chars(input);
    let open = single('(');
    let end = find(chars.as_slice(), open.as_slice(), 0);
    only_letters(vstd::slice::slice_subrange(chars.as_slice(), 0, end))
}

} // verus!
