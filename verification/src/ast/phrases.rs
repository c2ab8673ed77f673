//! Expressions as they are typed, and what the library reads them as.
//!
//! A phrase is an operand, an operand with one or more signs before it, a
//! phrase in parentheses, or two phrases with an operator between them. The
//! tokenizer turns the text of a phrase into the tokens of a written
//! expression, with a signed operand `-w` as `(0-w)` and `--w` as
//! `(0-(0-w))`, and the parser makes the tree of it.

use vstd::prelude::*;
use crate::ast::ast::Expr;
use crate::ast::expression;
use crate::ast::grammar::{
    is_well_written, left_floor, lemma_lone_parenthesis_is_mismatched,
    lemma_parser_reads_grammar, right_floor, tree_of, written, Syntax,
};
use crate::ast::parse::kind_of;
use crate::error::{Fault, SyntaxFault};
use crate::utils::input::{
    closed, finish, flush, is_supported, is_symbol, is_unary_position, is_word_char,
    lemma_first_unsupported, lemma_symbol_is_no_operand, normalized, opens_operand, scan,
    scan_char, Scan,
};
use crate::utils::operators::{row, symbol_of, BinaryOperator};

verus! {

/// An expression as it is typed.
pub ghost enum Phrase {
    /// A numeral or a name.
    Operand { word: Seq<char> },
    /// An operand, signed or not, with a sign before it.
    Signed { negative: bool, operand: Box<Phrase> },
    /// A phrase in parentheses.
    Group { inner: Box<Phrase> },
    /// Two phrases with an operator between them.
    Binary { operation: BinaryOperator, lhs: Box<Phrase>, rhs: Box<Phrase> },
}

/// The operator that a sign stands for.
pub open spec fn sign_of(negative: bool) -> BinaryOperator {
    if negative {
        BinaryOperator::Subtraction
    } else {
        BinaryOperator::Addition
    }
}

/// The text of a phrase, without any space.
pub open spec fn spelled(p: Phrase) -> Seq<char>
    decreases p,
{
    match p {
        Phrase::Operand { word } => word,
        Phrase::Signed { negative, operand } => seq![symbol_of(sign_of(negative))] + spelled(
            *operand,
        ),
        Phrase::Group { inner } => (seq!['('] + spelled(*inner)).push(')'),
        Phrase::Binary { operation, lhs, rhs } => spelled(*lhs).push(symbol_of(operation))
            + spelled(*rhs),
    }
}

/// The written expression that a phrase is read as: a signed operand is the
/// difference or the sum of `0` and the operand, in parentheses.
pub open spec fn syntax_of(p: Phrase) -> Syntax
    decreases p,
{
    match p {
        Phrase::Operand { word } => Syntax::Operand { token: word },
        Phrase::Signed { negative, operand } => Syntax::Group {
            inner: Box::new(
                Syntax::Binary {
                    operation: sign_of(negative),
                    lhs: Box::new(Syntax::Operand { token: seq!['0'] }),
                    rhs: Box::new(syntax_of(*operand)),
                },
            ),
        },
        Phrase::Group { inner } => Syntax::Group { inner: Box::new(syntax_of(*inner)) },
        Phrase::Binary { operation, lhs, rhs } => Syntax::Binary {
            operation,
            lhs: Box::new(syntax_of(*lhs)),
            rhs: Box::new(syntax_of(*rhs)),
        },
    }
}

/// A word that is an operand: lowercase letters, digits and decimal points
/// that make a numeral or a name.
pub open spec fn is_operand_word(word: Seq<char>) -> bool {
    &&& word.len() > 0
    &&& forall|k: int| 0 <= k < word.len() ==> is_word_char(#[trigger] word[k])
    &&& (kind_of(word) is Numeral || kind_of(word) is Identifier)
}

/// `p` is an operand word with any number of signs before it.
pub open spec fn is_signed_operand(p: Phrase) -> bool
    decreases p,
{
    match p {
        Phrase::Operand { word } => is_operand_word(word),
        Phrase::Signed { operand, .. } => is_signed_operand(*operand),
        _ => false,
    }
}

/// `p` is well phrased where an operand of precedence `floor` or more is
/// expected: its operands are operand words, and an operator without
/// parentheses around it has at least that precedence and operands that are
/// well phrased for their side.
pub open spec fn is_well_phrased(p: Phrase, floor: nat) -> bool
    decreases p,
{
    match p {
        Phrase::Operand { word } => is_operand_word(word),
        Phrase::Signed { operand, .. } => is_signed_operand(*operand),
        Phrase::Group { inner } => is_well_phrased(*inner, 0),
        Phrase::Binary { operation, lhs, rhs } => {
            &&& row(operation).precedence >= floor
            &&& is_well_phrased(*lhs, left_floor(operation))
            &&& is_well_phrased(*rhs, right_floor(operation))
        },
    }
}

/// The numeral `0`, which is put before a signed operand, is a numeral.
proof fn lemma_zero_is_numeral()
    ensures
        kind_of(seq!['0']) is Numeral,
{
    let zero = seq!['0'];
    assert(zero[0] == '0');
    assert(crate::utils::numeral::unsigned(zero) == zero);
    assert(crate::utils::numeral::is_decimal(zero));
}

/// The tokenizer's state after the characters `chars`, read from the state
/// `s` on.
pub open spec fn scan_from(s: Scan, chars: Seq<char>) -> Scan
    decreases chars.len(),
{
    if chars.len() == 0 {
        s
    } else {
        scan_char(scan_from(s, chars.drop_last()), chars.last())
    }
}

/// The tokenizer has nothing in progress and expects an operand: a sign
/// that comes now is unary.
pub open spec fn expects_operand(s: Scan) -> bool {
    s.pending.len() == 0 && s.closing == 0 && is_unary_position(s.tokens)
}

/// The tokenizer has read an operand: completing what is in progress gives
/// the tokens `tokens`, after which a sign is binary.
pub open spec fn has_read(s: Scan, tokens: Seq<Seq<char>>) -> bool {
    &&& s.pending.len() > 0 || s.closing == 0
    &&& finish(s) == tokens
    &&& tokens.len() > 0
    &&& !opens_operand(tokens.last())
}

proof fn lemma_scan_is_scan_from(chars: Seq<char>)
    ensures
        scan(chars) == scan_from(
            Scan { tokens: Seq::empty(), pending: Seq::empty(), closing: 0 },
            chars,
        ),
    decreases chars.len(),
{
    if chars.len() > 0 {
        lemma_scan_is_scan_from(chars.drop_last());
    }
}

proof fn lemma_scan_from_append(s: Scan, a: Seq<char>, b: Seq<char>)
    ensures
        scan_from(s, a + b) == scan_from(scan_from(s, a), b),
    decreases b.len(),
{
    if b.len() > 0 {
        assert((a + b).drop_last() =~= a + b.drop_last());
        lemma_scan_from_append(s, a, b.drop_last());
    }
}

proof fn lemma_scan_from_push(s: Scan, a: Seq<char>, c: char)
    ensures
        scan_from(s, a.push(c)) == scan_char(scan_from(s, a), c),
{
    assert(a.push(c).drop_last() =~= a);
}

proof fn lemma_scan_from_one(s: Scan, c: char)
    ensures
        scan_from(s, seq![c]) == scan_char(s, c),
{
    let one = seq![c];
    assert(scan_from(s, one.drop_last()) == s);
}

/// The characters of a word join what is in progress.
proof fn lemma_scan_word(s: Scan, word: Seq<char>)
    requires
        forall|k: int| 0 <= k < word.len() ==> is_word_char(#[trigger] word[k]),
    ensures
        scan_from(s, word) == (Scan {
            tokens: s.tokens,
            pending: s.pending + word,
            closing: s.closing,
        }),
    decreases word.len(),
{
    if word.len() > 0 {
        let before = word.drop_last();
        assert forall|k: int| 0 <= k < before.len() implies is_word_char(#[trigger] before[k]) by {}
        lemma_scan_word(s, before);
        assert((s.pending + before).push(word.last()) =~= s.pending + word);
    }
}

/// Once an operand is read, a symbol completes it and comes after it.
proof fn lemma_symbol_after_operand(s: Scan, tokens: Seq<Seq<char>>, c: char)
    requires
        has_read(s, tokens),
        is_symbol(c),
    ensures
        scan_char(s, c) == (Scan {
            tokens: tokens.push(seq![c]),
            pending: Seq::empty(),
            closing: 0,
        }),
{
    let f = flush(s);
    assert(f.pending =~= Seq::<char>::empty());
}

/// A signed operand is well phrased wherever it stands.
proof fn lemma_signed_is_well_phrased(p: Phrase, floor: nat)
    requires
        is_signed_operand(p),
    ensures
        is_well_phrased(p, floor),
{
}

/// Closing parentheses can be counted from either end.
proof fn lemma_closed_push(tokens: Seq<Seq<char>>, n: nat)
    ensures
        closed(tokens.push(seq![')']), n) == closed(tokens, n + 1),
    decreases n,
{
    if n > 0 {
        lemma_closed_push(tokens, (n - 1) as nat);
    } else {
        assert(closed(tokens, 1) == closed(tokens, 0).push(seq![')']));
    }
}

/// The tokenizer reads the signs before an operand one by one: each opens a
/// parenthesis, and all of them are closed after the operand.
proof fn lemma_signed_is_scanned(p: Phrase, s: Scan)
    requires
        is_signed_operand(p),
        s.pending.len() == 0,
        is_unary_position(s.tokens),
    ensures
        scan_from(s, spelled(p)).pending.len() > 0,
        finish(scan_from(s, spelled(p))) == closed(
            s.tokens + written(syntax_of(p)),
            s.closing,
        ),
    decreases p,
{
    match p {
        Phrase::Operand { word } => {
            lemma_scan_word(s, word);
            let t = scan_from(s, word);
            assert(t.pending =~= word);
            assert(s.tokens.push(word) =~= s.tokens + written(syntax_of(p)));
        },
        Phrase::Signed { negative, operand } => {
            let sign = symbol_of(sign_of(negative));
            lemma_scan_from_one(s, sign);
            lemma_scan_from_append(s, seq![sign], spelled(*operand));
            lemma_symbol_is_no_operand(sign);
            let s1 = scan_char(s, sign);
            assert(s1.tokens == s.tokens.push(seq!['(']).push(seq!['0']).push(seq![sign]));
            assert(s1.tokens.last() == seq![sign]);
            lemma_signed_is_scanned(*operand, s1);
            let inner = written(syntax_of(*operand));
            let sum = Syntax::Binary {
                operation: sign_of(negative),
                lhs: Box::new(Syntax::Operand { token: seq!['0'] }),
                rhs: Box::new(syntax_of(*operand)),
            };
            assert(written(Syntax::Operand { token: seq!['0'] }) == seq![seq!['0']]);
            assert(written(sum) == seq![seq!['0']].push(seq![sign]) + inner);
            assert(written(syntax_of(p)) == (seq![seq!['(']] + written(sum)).push(seq![')']));
            assert(s.tokens + written(syntax_of(p)) =~= (s1.tokens + inner).push(seq![')']));
            lemma_closed_push(s1.tokens + inner, s.closing);
        },
        _ => {},
    }
}

/// The tokenizer reads the text of a phrase as the tokens of the written
/// expression that the phrase stands for.
pub proof fn lemma_phrase_is_scanned(p: Phrase, floor: nat, s: Scan)
    requires
        is_well_phrased(p, floor),
        expects_operand(s),
    ensures
        has_read(scan_from(s, spelled(p)), s.tokens + written(syntax_of(p))),
    decreases p,
{
    match p {
        Phrase::Operand { word } => {
            lemma_scan_word(s, word);
            let t = scan_from(s, word);
            assert(finish(t) =~= s.tokens + seq![word]);
        },
        Phrase::Signed { negative, operand } => {
            lemma_signed_is_scanned(p, s);
            let expected = s.tokens + written(syntax_of(p));
            let sum = Syntax::Binary {
                operation: sign_of(negative),
                lhs: Box::new(Syntax::Operand { token: seq!['0'] }),
                rhs: Box::new(syntax_of(*operand)),
            };
            assert(written(syntax_of(p)) == (seq![seq!['(']] + written(sum)).push(seq![')']));
            assert(expected.last() == seq![')']);
            assert(seq![')'][0] == ')');
        },
        Phrase::Group { inner } => {
            let open = seq!['('];
            lemma_scan_from_one(s, '(');
            lemma_symbol_is_no_operand('(');
            let s1 = scan_char(s, '(');
            assert(s1.tokens.last() == seq!['(']);
            lemma_scan_from_append(s, open, spelled(*inner));
            lemma_phrase_is_scanned(*inner, 0, s1);
            let t1 = scan_from(s1, spelled(*inner));
            lemma_scan_from_push(s, open + spelled(*inner), ')');
            lemma_symbol_after_operand(t1, s1.tokens + written(syntax_of(*inner)), ')');
            let t = scan_from(s, spelled(p));
            let expected = s.tokens + written(syntax_of(p));
            assert(t.tokens =~= expected);
            assert(expected.last() == seq![')']);
        },
        Phrase::Binary { operation, lhs, rhs } => {
            let c = symbol_of(operation);
            lemma_phrase_is_scanned(*lhs, left_floor(operation), s);
            let t1 = scan_from(s, spelled(*lhs));
            let left = s.tokens + written(syntax_of(*lhs));
            lemma_scan_from_push(s, spelled(*lhs), c);
            lemma_symbol_after_operand(t1, left, c);
            lemma_symbol_is_no_operand(c);
            let s2 = scan_char(t1, c);
            assert(s2.tokens.last() == seq![c]);
            lemma_scan_from_append(s, spelled(*lhs).push(c), spelled(*rhs));
            lemma_phrase_is_scanned(*rhs, right_floor(operation), s2);
            let expected = s.tokens + written(syntax_of(p));
            assert(s2.tokens + written(syntax_of(*rhs)) =~= expected);
        },
    }
}

/// Every character of the text of a well-phrased expression is supported.
pub proof fn lemma_phrase_is_supported(p: Phrase, floor: nat)
    requires
        is_well_phrased(p, floor),
    ensures
        forall|i: int| 0 <= i < spelled(p).len() ==> is_supported(#[trigger] spelled(p)[i]),
    decreases p,
{
    match p {
        Phrase::Operand { word } => {},
        Phrase::Signed { negative, operand } => {
            lemma_signed_is_well_phrased(*operand, 0);
            lemma_phrase_is_supported(*operand, 0);
            assert forall|i: int| 0 <= i < spelled(p).len() implies is_supported(
                #[trigger] spelled(p)[i],
            ) by {
                if i > 0 {
                    assert(spelled(p)[i] == spelled(*operand)[i - 1]);
                }
            }
        },
        Phrase::Group { inner } => {
            lemma_phrase_is_supported(*inner, 0);
            assert forall|i: int| 0 <= i < spelled(p).len() implies is_supported(
                #[trigger] spelled(p)[i],
            ) by {
                if 0 < i < spelled(p).len() - 1 {
                    assert(spelled(p)[i] == spelled(*inner)[i - 1]);
                }
            }
        },
        Phrase::Binary { operation, lhs, rhs } => {
            lemma_phrase_is_supported(*lhs, left_floor(operation));
            lemma_phrase_is_supported(*rhs, right_floor(operation));
            let n = spelled(*lhs).len();
            assert forall|i: int| 0 <= i < spelled(p).len() implies is_supported(
                #[trigger] spelled(p)[i],
            ) by {
                if i > n {
                    assert(spelled(p)[i] == spelled(*rhs)[i - n - 1]);
                }
            }
        },
    }
}

/// The written expression of a well-phrased expression is well written.
pub proof fn lemma_phrase_is_well_written(p: Phrase, floor: nat)
    requires
        is_well_phrased(p, floor),
    ensures
        is_well_written(syntax_of(p), floor),
    decreases p,
{
    match p {
        Phrase::Signed { negative, operand } => {
            lemma_zero_is_numeral();
            let zero = Syntax::Operand { token: seq!['0'] };
            let operation = sign_of(negative);
            let sum = Syntax::Binary {
                operation,
                lhs: Box::new(zero),
                rhs: Box::new(syntax_of(*operand)),
            };
            lemma_signed_is_well_phrased(*operand, right_floor(operation));
            lemma_phrase_is_well_written(*operand, right_floor(operation));
            assert(is_well_written(zero, left_floor(operation)));
            assert(is_well_written(sum, 0));
        },
        Phrase::Group { inner } => {
            lemma_phrase_is_well_written(*inner, 0);
        },
        Phrase::Binary { operation, lhs, rhs } => {
            lemma_phrase_is_well_written(*lhs, left_floor(operation));
            lemma_phrase_is_well_written(*rhs, right_floor(operation));
        },
        _ => {},
    }
}

/// Normalizing changes nothing in a text of supported characters.
pub proof fn lemma_supported_is_normalized(chars: Seq<char>)
    requires
        forall|i: int| 0 <= i < chars.len() ==> is_supported(#[trigger] chars[i]),
    ensures
        normalized(chars) == chars,
    decreases chars.len(),
{
    reveal(Seq::filter);
    if chars.len() > 0 {
        let before = chars.drop_last();
        assert forall|i: int| 0 <= i < before.len() implies is_supported(#[trigger] before[i]) by {}
        lemma_supported_is_normalized(before);
        assert(before.push(chars.last()) =~= chars);
    }
}

/// The library reads what is typed: an input that is, but for whitespace
/// and the form of the division sign, the text of a well-phrased expression
/// has the tree of that expression. So multiplication and division come
/// before addition and subtraction and powers before both, powers group to
/// the right and the others to the left, parentheses override all of this,
/// and a sign before an operand is `0` plus or minus that operand.
pub proof fn lemma_expression_reads_phrase(input: Seq<char>, p: Phrase)
    requires
        is_well_phrased(p, 0),
        normalized(input) == spelled(p),
    ensures
        expression(input) == Ok::<Expr, Fault>(tree_of(syntax_of(p))),
{
    let chars = spelled(p);
    lemma_phrase_is_supported(p, 0);
    lemma_first_unsupported(chars);
    let s = Scan { tokens: Seq::empty(), pending: Seq::empty(), closing: 0 };
    lemma_scan_is_scan_from(chars);
    lemma_phrase_is_scanned(p, 0, s);
    lemma_phrase_is_well_written(p, 0);
    lemma_parser_reads_grammar(syntax_of(p));
}

/// A parenthesis without partner is reported as such: the text of a
/// well-phrased expression with `)` after it, or `(` before it, has
/// mismatched parentheses.
pub proof fn lemma_expression_lone_parenthesis(input: Seq<char>, p: Phrase)
    requires
        is_well_phrased(p, 0),
        normalized(input) == spelled(p).push(')') || normalized(input) == seq!['('] + spelled(p),
    ensures
        expression(input) == Err::<Expr, Fault>(Fault::Syntax(SyntaxFault::MismatchedParentheses)),
{
    let chars = normalized(input);
    let s = Scan { tokens: Seq::empty(), pending: Seq::empty(), closing: 0 };
    lemma_phrase_is_supported(p, 0);
    lemma_phrase_is_well_written(p, 0);
    lemma_lone_parenthesis_is_mismatched(syntax_of(p));
    lemma_scan_is_scan_from(chars);
    assert forall|i: int| 0 <= i < chars.len() implies is_supported(#[trigger] chars[i]) by {
        if chars == spelled(p).push(')') {
            if i < spelled(p).len() {
                assert(chars[i] == spelled(p)[i]);
            }
        } else {
            if i > 0 {
                assert(chars[i] == spelled(p)[i - 1]);
            }
        }
    }
    lemma_first_unsupported(chars);
    if chars == spelled(p).push(')') {
        lemma_phrase_is_scanned(p, 0, s);
        lemma_scan_from_push(s, spelled(p), ')');
        assert(s.tokens + written(syntax_of(p)) =~= written(syntax_of(p)));
        lemma_symbol_after_operand(scan_from(s, spelled(p)), written(syntax_of(p)), ')');
    } else {
        lemma_scan_from_one(s, '(');
        lemma_symbol_is_no_operand('(');
        let s1 = scan_char(s, '(');
        assert(s1.tokens.last() == seq!['(']);
        lemma_scan_from_append(s, seq!['('], spelled(p));
        lemma_phrase_is_scanned(p, 0, s1);
        assert(s1.tokens =~= seq![seq!['(']]);
    }
}

} // verus!
