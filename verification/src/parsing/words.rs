use vstd::prelude::*;
use vstd::utf8::encode_scalar;

use crate::data::{ParseError, SpecLexeme};
use crate::parsing::lexer::{
    is_digit, is_ident_char, is_sign, scan_digits, scan_ident, scan_whitespace, spec_decimal,
    spec_digits, spec_exponent, spec_float, spec_lex, spec_lex_from, spec_lexeme, spec_sign,
};
use crate::parsing::stream::text_of;
use crate::text::{byte_offset, lemma_byte_offset_step, spec_char_indices, spec_is_whitespace, utf8_width};

verus! {

// ----------------------------------------------------------------------------------------
// Texts that are a single word
// ----------------------------------------------------------------------------------------

/// A character below 128 takes one byte.
proof fn lemma_ascii_width(c: char)
    requires
        (c as u32) < 128,
    ensures
        utf8_width(c) == 1,
{
    assert(encode_scalar(c as u32).len() == 1);
}

/// In a text of characters below 128, the byte offset of a character is its position.
proof fn lemma_ascii_offsets(t: Seq<char>, k: int)
    requires
        0 <= k <= t.len(),
        forall|i: int| 0 <= i < t.len() ==> (#[trigger] t[i] as u32) < 128,
    ensures
        byte_offset(t, k) == k,
    decreases k,
{
    if k == 0 {
        assert(t.take(0) =~= Seq::<char>::empty());
    } else {
        lemma_ascii_offsets(t, k - 1);
        lemma_byte_offset_step(t, k - 1);
        lemma_ascii_width(t[k - 1]);
    }
}

proof fn lemma_scan_digits_to_end(s: Seq<(usize, char)>, p: int)
    requires
        0 <= p <= s.len(),
        forall|k: int| p <= k < s.len() ==> is_digit(#[trigger] s[k].1),
    ensures
        scan_digits(s, p) == s.len(),
    decreases s.len() - p,
{
    if p < s.len() {
        lemma_scan_digits_to_end(s, p + 1);
    }
}

proof fn lemma_scan_ident_to_end(s: Seq<(usize, char)>, p: int)
    requires
        0 <= p <= s.len(),
        forall|k: int| p <= k < s.len() ==> is_ident_char(#[trigger] s[k].1),
    ensures
        scan_ident(s, p) == s.len(),
    decreases s.len() - p,
{
    if p < s.len() {
        lemma_scan_ident_to_end(s, p + 1);
    }
}

/// Nothing is read at the end of a text.
proof fn lemma_lex_from_end(s: Seq<(usize, char)>)
    ensures
        spec_lex_from(s, s.len() as int) == (Seq::<SpecLexeme>::empty(), s.len() as int),
{
    assert(scan_whitespace(s, s.len() as int) == s.len());
    assert(spec_lexeme(s, s.len() as int) is None);
}

/// A text that starts with a letter (`a` to `z` or `A` to `Z`) or `_` and goes on with
/// letters, digits and `_` lexes as one symbol whose value is the whole text, from offset 0
/// to the offset of its last character.
pub proof fn lemma_word_lexes_as_one_symbol(t: Seq<char>)
    requires
        0 < t.len(),
        ('a' <= t[0] && t[0] <= 'z') || ('A' <= t[0] && t[0] <= 'Z') || t[0] == '_',
        forall|k: int|
            1 <= k < t.len() ==> ('a' <= #[trigger] t[k] && t[k] <= 'z') || ('A' <= t[k] && t[k]
                <= 'Z') || ('0' <= t[k] && t[k] <= '9') || t[k] == '_',
    ensures
        spec_lex(t) == Ok::<Seq<SpecLexeme>, ParseError>(
            seq![SpecLexeme::Symbol { value: t, start: 0, end: (t.len() - 1) as usize }],
        ),
{
    let s = spec_char_indices(t);
    let n = t.len() as int;
    assert(t.take(0) =~= Seq::<char>::empty());
    assert(s[0].0 == 0);
    assert(s[0].1 == t[0]);
    assert forall|k: int| 1 <= k < s.len() implies is_ident_char(#[trigger] s[k].1) by {
        assert(s[k].1 == t[k]);
    }
    lemma_scan_ident_to_end(s, 1);
    assert(scan_whitespace(s, 0) == 0);
    assert(spec_float(s, 0) is None);
    assert(text_of(s, 0, n) =~= t);
    let l = SpecLexeme::Symbol { value: t, start: 0, end: (t.len() - 1) as usize };
    assert(spec_lexeme(s, 0) == Some((l, n)));
    assert(scan_whitespace(s, n) == n);
    lemma_lex_from_end(s);
    assert(seq![l] + Seq::<SpecLexeme>::empty() =~= seq![l]);
    assert(spec_lex_from(s, 0) == (seq![l], n));
}

/// A text made only of the digits `0` to `9` is one number literal: read from its start it
/// is a literal whose value is the whole text, from offset 0 to the offset of its last
/// character, and it lexes as that literal alone.
pub proof fn lemma_digits_read_as_one_number(t: Seq<char>)
    requires
        0 < t.len(),
        forall|k: int| 0 <= k < t.len() ==> '0' <= #[trigger] t[k] && t[k] <= '9',
    ensures
        spec_float(spec_char_indices(t), 0) == Some((
            SpecLexeme::Float { value: t, start: 0, end: (t.len() - 1) as usize },
            t.len() as int,
        )),
        spec_lex(t) == Ok::<Seq<SpecLexeme>, ParseError>(
            seq![SpecLexeme::Float { value: t, start: 0, end: (t.len() - 1) as usize }],
        ),
{
    let s = spec_char_indices(t);
    let n = t.len() as int;
    assert forall|i: int| 0 <= i < t.len() implies (#[trigger] t[i] as u32) < 128 by {}
    lemma_ascii_offsets(t, 0);
    lemma_ascii_offsets(t, n - 1);
    assert(s[0].0 == 0);
    assert(s[n - 1].0 == (n - 1) as usize);
    assert forall|k: int| 0 <= k < s.len() implies is_digit(#[trigger] s[k].1) by {
        assert(s[k].1 == t[k]);
    }
    lemma_scan_digits_to_end(s, 1);
    assert(text_of(s, 0, n) =~= t);
    let l = SpecLexeme::Float { value: t, start: 0, end: (t.len() - 1) as usize };
    assert(spec_float(s, 0) == Some((l, n)));
    assert(scan_whitespace(s, 0) == 0);
    assert(spec_lexeme(s, 0) == Some((l, n)));
    assert(scan_whitespace(s, n) == n);
    lemma_lex_from_end(s);
    assert(seq![l] + Seq::<SpecLexeme>::empty() =~= seq![l]);
    assert(spec_lex_from(s, 0) == (seq![l], n));
}

// ----------------------------------------------------------------------------------------
// Number literals in full
// ----------------------------------------------------------------------------------------

/// A nonempty run of the digits `0` to `9`.
pub open spec fn decimal_digits(d: Seq<char>) -> bool {
    &&& 0 < d.len()
    &&& forall|k: int| 0 <= k < d.len() ==> '0' <= #[trigger] d[k] && d[k] <= '9'
}

/// Empty, or the single character `+` or `-`.
pub open spec fn optional_sign(x: Seq<char>) -> bool {
    x.len() == 0 || (x.len() == 1 && (x[0] == '+' || x[0] == '-'))
}

/// The text of a number literal put together from its parts: a sign, the digits of the
/// integer part, a decimal part (`.` and its digits) if `frac` is not empty, then, if `mark`
/// is not empty, the exponent: `mark`, its sign and its digits.
pub open spec fn number_text(
    sign: Seq<char>,
    whole: Seq<char>,
    frac: Seq<char>,
    mark: Seq<char>,
    exp_sign: Seq<char>,
    exp_digits: Seq<char>,
) -> Seq<char> {
    let decimal = if frac.len() == 0 {
        Seq::<char>::empty()
    } else {
        seq!['.'] + frac
    };
    sign + whole + decimal + mark + exp_sign + exp_digits
}

/// Where digits stop: at the end or before a character that is no digit.
proof fn lemma_scan_digits_exact(s: Seq<(usize, char)>, p: int, r: int)
    requires
        0 <= p <= r <= s.len(),
        forall|k: int| p <= k < r ==> is_digit(#[trigger] s[k].1),
        r < s.len() ==> !is_digit(s[r].1),
    ensures
        scan_digits(s, p) == r,
    decreases r - p,
{
    if p < r {
        lemma_scan_digits_exact(s, p + 1, r);
    }
}

/// The number literal grammar read over positions: a sign before `a`, digits from `a` to
/// `b`, a decimal part from `b` to `c`, an exponent mark and sign from `c` to `d`, exponent
/// digits from `d` to the end `e`.
proof fn lemma_float_by_parts(s: Seq<(usize, char)>, a: int, b: int, c: int, d: int, e: int)
    requires
        a == 0 || a == 1,
        a == 1 ==> is_sign(s[0].1),
        a < b <= c <= d <= e == s.len(),
        forall|k: int| a <= k < b ==> is_digit(#[trigger] s[k].1),
        c == b || (c >= b + 2 && s[b].1 == '.' && forall|k: int|
            b < k < c ==> is_digit(#[trigger] s[k].1)),
        d == c ==> e == d,
        d > c ==> (s[c].1 == 'e' || s[c].1 == 'E') && (d == c + 1 || (d == c + 2 && is_sign(
            s[c + 1].1,
        ))) && e > d,
        forall|k: int| d <= k < e ==> is_digit(#[trigger] s[k].1),
    ensures
        spec_float(s, 0) == Some((
            crate::data::SpecLexeme::Float { value: text_of(s, 0, e), start: s[0].0, end: s[e - 1].0 },
            e,
        )),
{
    if a == 0 {
        assert(is_digit(s[0].1));
        assert(spec_sign(s, 0) is None);
    }
    if b < e {
        assert(!is_digit(s[b].1)) by {
            if c > b {
            } else if d > c {
            }
        }
    }
    lemma_scan_digits_exact(s, a + 1, b);
    assert(spec_digits(s, a) matches Some((_, q)) && q == b);
    if c > b {
        if c < e {
            assert(!is_digit(s[c].1));
        }
        lemma_scan_digits_exact(s, b + 2, c);
        assert(spec_decimal(s, b) matches Some((_, q)) && q == c);
    } else {
        assert(spec_decimal(s, b) is None);
    }
    if d > c {
        if d == c + 1 {
            assert(is_digit(s[d].1));
        }
        lemma_scan_digits_exact(s, d + 1, e);
        assert(spec_exponent(s, c) matches Some((_, q)) && q == e);
    } else {
        assert(spec_exponent(s, c) is None);
    }
}

/// A number literal, put together from an optional sign, integer digits, an optional
/// decimal part (`.` and digits) and an optional exponent (`e` or `E`, an optional sign,
/// digits), is read whole from the start of its text: the literal's value is the whole text,
/// it spans from offset 0 to its last character, and the text lexes as that literal alone.
pub proof fn lemma_number_literal_read_whole(
    sign: Seq<char>,
    whole: Seq<char>,
    frac: Seq<char>,
    mark: Seq<char>,
    exp_sign: Seq<char>,
    exp_digits: Seq<char>,
)
    requires
        optional_sign(sign),
        decimal_digits(whole),
        frac.len() == 0 || decimal_digits(frac),
        mark.len() == 0 ==> exp_sign.len() == 0 && exp_digits.len() == 0,
        mark.len() > 0 ==> mark.len() == 1 && (mark[0] == 'e' || mark[0] == 'E') && optional_sign(
            exp_sign,
        ) && decimal_digits(exp_digits),
    ensures
        ({
            let t = number_text(sign, whole, frac, mark, exp_sign, exp_digits);
            let l = SpecLexeme::Float { value: t, start: 0, end: (t.len() - 1) as usize };
            &&& spec_float(spec_char_indices(t), 0) == Some((l, t.len() as int))
            &&& spec_lex(t) == Ok::<Seq<SpecLexeme>, ParseError>(seq![l])
        }),
{
    let t = number_text(sign, whole, frac, mark, exp_sign, exp_digits);
    let s = spec_char_indices(t);
    let decimal = if frac.len() == 0 {
        Seq::<char>::empty()
    } else {
        seq!['.'] + frac
    };
    let a = sign.len() as int;
    let b = a + whole.len();
    let c = b + decimal.len();
    let d = c + mark.len() + exp_sign.len();
    let e = d + exp_digits.len();
    let n = t.len() as int;
    assert(n == e);
    assert forall|k: int| 0 <= k < n implies s[k].1 == #[trigger] t[k] by {}
    assert forall|k: int| a <= k < b implies #[trigger] t[k] == whole[k - a] by {}
    assert forall|k: int| a <= k < b implies is_digit(#[trigger] s[k].1) by {
        assert(t[k] == whole[k - a]);
    }
    if frac.len() > 0 {
        assert(t[b] == '.');
        assert forall|k: int| b < k < c implies is_digit(#[trigger] s[k].1) by {
            assert(t[k] == frac[k - b - 1]);
        }
    }
    if mark.len() > 0 {
        assert(t[c] == mark[0]);
        if exp_sign.len() > 0 {
            assert(t[c + 1] == exp_sign[0]);
        }
    }
    assert forall|k: int| d <= k < e implies is_digit(#[trigger] s[k].1) by {
        assert(t[k] == exp_digits[k - d]);
    }
    if a == 1 {
        assert(t[0] == sign[0]);
    }
    lemma_float_by_parts(s, a, b, c, d, e);
    assert forall|i: int| 0 <= i < t.len() implies (#[trigger] t[i] as u32) < 128 by {
        if i < a {
            assert(t[i] == sign[i]);
        } else if i < b {
            assert(t[i] == whole[i - a]);
        } else if i < c {
            if i > b {
                assert(t[i] == frac[i - b - 1]);
            }
        } else if i < c + mark.len() {
            assert(t[i] == mark[i - c]);
        } else if i < d {
            assert(t[i] == exp_sign[i - c - mark.len()]);
        } else {
            assert(t[i] == exp_digits[i - d]);
        }
    }
    lemma_ascii_offsets(t, 0);
    lemma_ascii_offsets(t, n - 1);
    assert(s[0].0 == 0);
    assert(s[n - 1].0 == (n - 1) as usize);
    assert(text_of(s, 0, n) =~= t);
    let l = SpecLexeme::Float { value: t, start: 0, end: (t.len() - 1) as usize };
    assert(spec_float(s, 0) == Some((l, n)));
    if a == 1 {
        assert(s[0].1 == sign[0]);
    } else {
        assert(s[0].1 == whole[0]);
    }
    assert(scan_whitespace(s, 0) == 0);
    assert(spec_lexeme(s, 0) == Some((l, n)));
    assert(scan_whitespace(s, n) == n);
    lemma_lex_from_end(s);
    assert(seq![l] + Seq::<SpecLexeme>::empty() =~= seq![l]);
    assert(spec_lex_from(s, 0) == (seq![l], n));
}

// ----------------------------------------------------------------------------------------
// Colon symbols and punctuation
// ----------------------------------------------------------------------------------------

/// A `:` followed by a word that starts with a letter (`a` to `z` or `A` to `Z`) or `_` and
/// goes on with letters, digits and `_` lexes as one colon symbol whose value is the word
/// (without the colon), starting at the colon.
pub proof fn lemma_colon_word_lexes_as_one_colon_symbol(w: Seq<char>)
    requires
        0 < w.len(),
        ('a' <= w[0] && w[0] <= 'z') || ('A' <= w[0] && w[0] <= 'Z') || w[0] == '_',
        forall|k: int|
            1 <= k < w.len() ==> ('a' <= #[trigger] w[k] && w[k] <= 'z') || ('A' <= w[k] && w[k]
                <= 'Z') || ('0' <= w[k] && w[k] <= '9') || w[k] == '_',
    ensures
        spec_lex(seq![':'] + w) == Ok::<Seq<SpecLexeme>, ParseError>(
            seq![SpecLexeme::ColonSymbol { value: w, start: 0, end: (w.len() - 1) as usize }],
        ),
{
    let t = seq![':'] + w;
    let s = spec_char_indices(t);
    let n = t.len() as int;
    assert(t.take(0) =~= Seq::<char>::empty());
    assert(s[0].0 == 0);
    assert(s[0].1 == ':');
    assert(s[1].1 == w[0]);
    assert forall|k: int| 2 <= k < s.len() implies is_ident_char(#[trigger] s[k].1) by {
        assert(s[k].1 == w[k - 1]);
    }
    lemma_scan_ident_to_end(s, 2);
    assert(scan_whitespace(s, 0) == 0);
    assert(spec_float(s, 0) is None);
    assert(text_of(s, 1, n) =~= w);
    let l = SpecLexeme::ColonSymbol { value: w, start: 0, end: (w.len() - 1) as usize };
    assert(spec_lexeme(s, 0) == Some((l, n)));
    assert(scan_whitespace(s, n) == n);
    lemma_lex_from_end(s);
    assert(seq![l] + Seq::<SpecLexeme>::empty() =~= seq![l]);
    assert(spec_lex_from(s, 0) == (seq![l], n));
}

/// Each of `(`, `)`, `,` and `;` is a lexeme on its own, wherever it stands, at the offset
/// of its character.
pub proof fn lemma_punctuation_is_one_lexeme(s: Seq<(usize, char)>, p: int)
    requires
        0 <= p < s.len(),
    ensures
        s[p].1 == '(' ==> spec_lexeme(s, p) == Some((SpecLexeme::LParen { index: s[p].0 }, p + 1)),
        s[p].1 == ')' ==> spec_lexeme(s, p) == Some((SpecLexeme::RParen { index: s[p].0 }, p + 1)),
        s[p].1 == ',' ==> spec_lexeme(s, p) == Some((SpecLexeme::Comma { index: s[p].0 }, p + 1)),
        s[p].1 == ';' ==> spec_lexeme(s, p) == Some(
            (SpecLexeme::SemiColon { index: s[p].0 }, p + 1),
        ),
{
}

/// A text whose first character is neither white space nor a character that can start a
/// lexeme (a digit, `+`, `-`, a letter, `_`, `:`, `(`, `)`, `,`, `;`) fails to lex.
pub proof fn lemma_text_starting_no_lexeme_fails(t: Seq<char>)
    requires
        0 < t.len(),
        !spec_is_whitespace(t[0]),
        !('0' <= t[0] && t[0] <= '9'),
        !('a' <= t[0] && t[0] <= 'z'),
        !('A' <= t[0] && t[0] <= 'Z'),
        t[0] != '+' && t[0] != '-' && t[0] != '_' && t[0] != ':',
        t[0] != '(' && t[0] != ')' && t[0] != ',' && t[0] != ';',
    ensures
        spec_lex(t) == Err::<Seq<SpecLexeme>, ParseError>(ParseError::Fatal),
{
    let s = spec_char_indices(t);
    assert(s[0].1 == t[0]);
    assert(scan_whitespace(s, 0) == 0);
    assert(spec_lexeme(s, 0) is None);
    assert(spec_lex_from(s, 0) == (Seq::<SpecLexeme>::empty(), 0int));
}

} // verus!
