//! Numerals: the texts that denote a floating-point number.
//!
//! The grammar is the one of the standard library's decimal-to-float parser:
//!
//! ```text
//! Float  ::= Sign? ( 'inf' | 'infinity' | 'nan' | Number )
//! Number ::= ( Digit+ | Digit+ '.' Digit* | Digit* '.' Digit+ ) Exp?
//! Exp    ::= 'e' Sign? Digit+
//! Sign   ::= [+-]
//! Digit  ::= [0-9]
//! ```
//!
//! where letters match in either case.

use vstd::prelude::*;
use vstd::slice::slice_subrange;
use crate::utils::text::{digit, is_digit, to_chars};

verus! {

/// The two signs.
pub open spec fn is_sign(c: char) -> bool {
    c == '+' || c == '-'
}

/// The letter that starts an exponent, in either case.
pub open spec fn is_exponent_mark(c: char) -> bool {
    c == 'e' || c == 'E'
}

/// `s` without its leading sign, if it has one.
pub open spec fn unsigned(s: Seq<char>) -> Seq<char> {
    if s.len() > 0 && is_sign(s[0]) {
        s.skip(1)
    } else {
        s
    }
}

/// Digits with at most one decimal point among them, and at least one digit.
pub open spec fn is_decimal(s: Seq<char>) -> bool {
    &&& forall|i: int| 0 <= i < s.len() ==> is_digit(#[trigger] s[i]) || s[i] == '.'
    &&& forall|i: int, j: int|
        #![trigger s[i], s[j]]
        0 <= i < j < s.len() ==> !(s[i] == '.' && s[j] == '.')
    &&& exists|i: int| 0 <= i < s.len() && is_digit(#[trigger] s[i])
}

/// What follows the exponent mark: an optional sign and at least one digit.
pub open spec fn is_exponent(s: Seq<char>) -> bool {
    let d = unsigned(s);
    d.len() > 0 && forall|i: int| 0 <= i < d.len() ==> is_digit(#[trigger] d[i])
}

/// A decimal, optionally followed by an exponent mark and an exponent.
pub open spec fn is_number(s: Seq<char>) -> bool {
    ||| is_decimal(s)
    ||| exists|k: int|
        0 <= k < s.len() && is_exponent_mark(#[trigger] s[k]) && is_decimal(s.take(k))
            && is_exponent(s.skip(k + 1))
}

/// `c` is the lowercase letter `letter` or its uppercase form.
pub open spec fn is_letter(c: char, letter: char) -> bool {
    c == letter || (c as u32) + 32 == letter as u32
}

/// `s` spells the lowercase word `word`, in any mix of cases.
pub open spec fn spells(s: Seq<char>, word: Seq<char>) -> bool {
    s.len() == word.len() && forall|i: int|
        0 <= i < s.len() ==> is_letter(#[trigger] s[i], word[i])
}

/// The three words that denote an infinity or a not-a-number.
pub open spec fn is_special(s: Seq<char>) -> bool {
    ||| spells(s, seq!['i', 'n', 'f'])
    ||| spells(s, seq!['n', 'a', 'n'])
    ||| spells(s, seq!['i', 'n', 'f', 'i', 'n', 'i', 't', 'y'])
}

/// The texts that denote a floating-point number.
pub open spec fn is_float_text(s: Seq<char>) -> bool {
    let u = unsigned(s);
    is_special(u) || is_number(u)
}

fn sign(c: char) -> (b: bool)
    ensures
        b == is_sign(c),
{
    c == '+' || c == '-'
}

fn letter(c: char, lower: char) -> (b: bool)
    ensures
        b == is_letter(c, lower),
{
    c == lower || (c as u32) + 32 == lower as u32
}

fn decimal(s: &[char]) -> (b: bool)
    ensures
        b == is_decimal(s@),
{
    let mut seen_point = false;
    let mut seen_digit = false;
    let ghost mut point_at: int = 0;
    let ghost mut digit_at: int = 0;
    let mut i: usize = 0;
    while i < s.len()
        invariant
            i <= s.len(),
            forall|k: int| 0 <= k < i ==> is_digit(#[trigger] s@[k]) || s@[k] == '.',
            seen_point ==> 0 <= point_at < i && s@[point_at] == '.',
            forall|k: int| 0 <= k < i && #[trigger] s@[k] == '.' ==> seen_point && k == point_at,
            seen_digit ==> 0 <= digit_at < i && is_digit(s@[digit_at]),
            !seen_digit ==> forall|k: int| 0 <= k < i ==> !is_digit(#[trigger] s@[k]),
        decreases s.len() - i,
    {
        let c = s[i];
        if digit(c) {
            seen_digit = true;
            proof {
                digit_at = i as int;
            }
        } else if c == '.' {
            if seen_point {
                return false;
            }
            seen_point = true;
            proof {
                point_at = i as int;
            }
        } else {
            return false;
        }
        i += 1;
    }
    seen_digit
}

fn exponent(s: &[char]) -> (b: bool)
    ensures
        b == is_exponent(s@),
{
    let start: usize = if s.len() > 0 && sign(s[0]) {
        1
    } else {
        0
    };
    let ghost d = unsigned(s@);
    if start == s.len() {
        return false;
    }
    let mut i: usize = start;
    while i < s.len()
        invariant
            start <= i <= s.len(),
            d == unsigned(s@),
            d == s@.skip(start as int),
            forall|k: int| 0 <= k < i - start ==> is_digit(#[trigger] d[k]),
        decreases s.len() - i,
    {
        if !digit(s[i]) {
            assert(!is_digit(d[i - start]));
            return false;
        }
        i += 1;
    }
    true
}

fn number(s: &[char]) -> (b: bool)
    ensures
        b == is_number(s@),
{
    let mut k: usize = 0;
    while k < s.len() && !(s[k] == 'e' || s[k] == 'E')
        invariant
            k <= s.len(),
            forall|j: int| 0 <= j < k ==> !is_exponent_mark(#[trigger] s@[j]),
        decreases s.len() - k,
    {
        k += 1;
    }
    if k == s.len() {
        decimal(s)
    } else {
        let b = decimal(slice_subrange(s, 0, k)) && exponent(slice_subrange(s, k + 1, s.len()));
        proof {
            assert(!is_decimal(s@)) by {}
            assert forall|m: int|
                0 <= m < s@.len() && is_exponent_mark(#[trigger] s@[m]) && is_decimal(
                    s@.take(m),
                ) implies m == k by {
                if m > k {
                    assert(s@.take(m)[k as int] == s@[k as int]);
                }
            }
        }
        b
    }
}

fn special(s: &[char]) -> (b: bool)
    ensures
        b == is_special(s@),
{
    let n = s.len();
    if n == 3 {
        let inf = letter(s[0], 'i') && letter(s[1], 'n') && letter(s[2], 'f');
        let nan = letter(s[0], 'n') && letter(s[1], 'a') && letter(s[2], 'n');
        inf || nan
    } else if n == 8 {
        letter(s[0], 'i') && letter(s[1], 'n') && letter(s[2], 'f') && letter(s[3], 'i') && letter(
            s[4],
            'n',
        ) && letter(s[5], 'i') && letter(s[6], 't') && letter(s[7], 'y')
    } else {
        false
    }
}

/// Whether the characters `s` denote a floating-point number.
pub fn is_float(s: &[char]) -> (b: bool)
    ensures
        b == is_float_text(s@),
{
    let start: usize = if s.len() > 0 && sign(s[0]) {
        1
    } else {
        0
    };
    let body = slice_subrange(s, start, s.len());
    assert(body@ == unsigned(s@));
    special(body) || number(body)
}

/// A numeral: a text that denotes a floating-point number.
///
/// A value of this type can only be made by [`Numeral::new`], so every
/// numeral that a tree holds can be read as a number.
#[derive(Debug, PartialEq, Eq)]
pub struct Numeral {
    text: String,
}

impl View for Numeral {
    type V = Seq<char>;

    /// The numeral's text.
    closed spec fn view(&self) -> Seq<char> {
        self.text@
    }
}

impl Numeral {
    #[verifier::type_invariant]
    closed spec fn denotes_number(self) -> bool {
        is_float_text(self.text@)
    }

    /// Makes a numeral of `text` where `text` denotes a number, and hands
    /// the text back where it does not.
    pub fn new(text: String) -> (numeral: Result<Numeral, String>)
        ensures
            numeral is Ok <==> is_float_text(text@),
            match numeral {
                Ok(n) => n@ == text@,
                Err(t) => t@ == text@,
            },
    {
        let chars = to_chars(text.as_str());
        if is_float(chars.as_slice()) {
            Ok(Numeral { text })
        } else {
            Err(text)
        }
    }

    /// The numeral's text, which always denotes a number.
    pub fn as_str(&self) -> (text: &str)
        ensures
            text@ == self@,
            is_float_text(text@),
    {
        proof {
            use_type_invariant(self);
        }
        self.text.as_str()
    }
}

impl Clone for Numeral {
    fn clone(&self) -> (copy: Self)
        ensures
            copy@ == self@,
    {
        proof {
            use_type_invariant(self);
        }
        Numeral { text: self.text.clone() }
    }
}

} // verus!
