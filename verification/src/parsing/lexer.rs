use vstd::prelude::*;
use vstd::utf8::encode_utf8;

use crate::data::{lexemes_view, Lexeme, ParseError, SpecLexeme};
use crate::parsing::stream::{offsets_increasing, text_of, CharStream};
use crate::text::{
    is_whitespace, lemma_byte_offset_bounds, push_char, spec_char_indices, spec_is_whitespace,
};

verus! {

// ----------------------------------------------------------------------------------------
// The lexical grammar
// ----------------------------------------------------------------------------------------

/// A decimal digit, as `char::is_digit(10)` accepts it.
pub open spec fn is_digit(c: char) -> bool {
    '0' <= c <= '9'
}

pub open spec fn is_sign(c: char) -> bool {
    c == '+' || c == '-'
}

/// A character that may start a symbol.
pub open spec fn is_ident_start(c: char) -> bool {
    ||| 'a' <= c <= 'z'
    ||| 'A' <= c <= 'Z'
    ||| c == '_'
}

/// A character that may continue a symbol.
pub open spec fn is_ident_char(c: char) -> bool {
    is_ident_start(c) || is_digit(c)
}

/// The first position at or after `p` that does not hold a digit.
pub open spec fn scan_digits(s: Seq<(usize, char)>, p: int) -> int
    decreases s.len() - p,
{
    if 0 <= p < s.len() && is_digit(s[p].1) {
        scan_digits(s, p + 1)
    } else {
        p
    }
}

/// The first position at or after `p` that does not hold a symbol character.
pub open spec fn scan_ident(s: Seq<(usize, char)>, p: int) -> int
    decreases s.len() - p,
{
    if 0 <= p < s.len() && is_ident_char(s[p].1) {
        scan_ident(s, p + 1)
    } else {
        p
    }
}

/// The first position at or after `p` that does not hold white space.
pub open spec fn scan_whitespace(s: Seq<(usize, char)>, p: int) -> int
    decreases s.len() - p,
{
    if 0 <= p < s.len() && spec_is_whitespace(s[p].1) {
        scan_whitespace(s, p + 1)
    } else {
        p
    }
}

/// A sign character at `p`.
pub open spec fn spec_sign(s: Seq<(usize, char)>, p: int) -> Option<((usize, char), int)> {
    if 0 <= p < s.len() && is_sign(s[p].1) {
        Some((s[p], p + 1))
    } else {
        None
    }
}

/// One or more digits from `p`: the offsets of the first and last digit and the digits.
pub open spec fn spec_digits(s: Seq<(usize, char)>, p: int) -> Option<
    ((usize, usize, Seq<char>), int),
> {
    if 0 <= p < s.len() && is_digit(s[p].1) {
        let q = scan_digits(s, p + 1);
        Some(((s[p].0, s[q - 1].0, text_of(s, p, q)), q))
    } else {
        None
    }
}

/// A decimal part `.ddd` from `p`: the offset of its last digit and its text.
pub open spec fn spec_decimal(s: Seq<(usize, char)>, p: int) -> Option<((usize, Seq<char>), int)> {
    if 0 <= p && p + 1 < s.len() && s[p].1 == '.' && is_digit(s[p + 1].1) {
        let q = scan_digits(s, p + 2);
        Some(((s[q - 1].0, text_of(s, p, q)), q))
    } else {
        None
    }
}

/// An exponent `e+ddd` (`e` or `E`, an optional sign) from `p`: the offset of its last
/// digit and its text.
pub open spec fn spec_exponent(s: Seq<(usize, char)>, p: int) -> Option<((usize, Seq<char>), int)> {
    if 0 <= p < s.len() && (s[p].1 == 'e' || s[p].1 == 'E') {
        let r = if p + 1 < s.len() && is_sign(s[p + 1].1) {
            p + 2
        } else {
            p + 1
        };
        if r < s.len() && is_digit(s[r].1) {
            let q = scan_digits(s, r + 1);
            Some(((s[q - 1].0, text_of(s, p, q)), q))
        } else {
            None
        }
    } else {
        None
    }
}

/// A number literal from `p`: an optional sign, digits, an optional decimal part and an
/// optional exponent. Its value is its text; it spans from its first to its last character.
pub open spec fn spec_float(s: Seq<(usize, char)>, p: int) -> Option<(SpecLexeme, int)> {
    let q0 = match spec_sign(s, p) {
        Some((_, q)) => q,
        None => p,
    };
    match spec_digits(s, q0) {
        Some((_, q1)) => {
            let q2 = match spec_decimal(s, q1) {
                Some((_, q)) => q,
                None => q1,
            };
            let q3 = match spec_exponent(s, q2) {
                Some((_, q)) => q,
                None => q2,
            };
            Some((SpecLexeme::Float { value: text_of(s, p, q3), start: s[p].0, end: s[q3 - 1].0 }, q3))
        },
        None => None,
    }
}

/// The character `c` alone at `p`.
pub open spec fn spec_char(s: Seq<(usize, char)>, p: int, c: char) -> bool {
    0 <= p < s.len() && s[p].1 == c
}

/// A symbol from `p`: a letter or `_`, then letters, digits and `_`. Its end is its start
/// plus the number of characters after the first.
pub open spec fn spec_symbol(s: Seq<(usize, char)>, p: int) -> Option<(SpecLexeme, int)> {
    if 0 <= p < s.len() && is_ident_start(s[p].1) {
        let q = scan_ident(s, p + 1);
        Some((SpecLexeme::Symbol { value: text_of(s, p, q), start: s[p].0, end: (s[p].0 + (q - p - 1)) as usize }, q))
    } else {
        None
    }
}

/// A colon symbol from `p`: `:` then a symbol. Its value leaves the colon out; it starts at
/// the colon, and its end is its start plus the number of characters after the second.
pub open spec fn spec_colon_symbol(s: Seq<(usize, char)>, p: int) -> Option<(SpecLexeme, int)> {
    if 0 <= p && p + 1 < s.len() && s[p].1 == ':' && is_ident_start(s[p + 1].1) {
        let q = scan_ident(s, p + 2);
        Some((SpecLexeme::ColonSymbol { value: text_of(s, p + 1, q), start: s[p].0, end: (s[p].0 + (q - p - 2)) as usize }, q))
    } else {
        None
    }
}

/// The first of the lexeme kinds that matches at `p`, in this order: number, `,`, `(`, `)`,
/// `;`, colon symbol, symbol.
pub open spec fn spec_lexeme(s: Seq<(usize, char)>, p: int) -> Option<(SpecLexeme, int)> {
    if spec_float(s, p) is Some {
        spec_float(s, p)
    } else if spec_char(s, p, ',') {
        Some((SpecLexeme::Comma { index: s[p].0 }, p + 1))
    } else if spec_char(s, p, '(') {
        Some((SpecLexeme::LParen { index: s[p].0 }, p + 1))
    } else if spec_char(s, p, ')') {
        Some((SpecLexeme::RParen { index: s[p].0 }, p + 1))
    } else if spec_char(s, p, ';') {
        Some((SpecLexeme::SemiColon { index: s[p].0 }, p + 1))
    } else if spec_colon_symbol(s, p) is Some {
        spec_colon_symbol(s, p)
    } else {
        spec_symbol(s, p)
    }
}

/// A lexeme with the white space around it.
pub open spec fn spec_clean_lexeme(s: Seq<(usize, char)>, p: int) -> Option<(SpecLexeme, int)> {
    match spec_lexeme(s, scan_whitespace(s, p)) {
        Some((l, q)) => Some((l, scan_whitespace(s, q))),
        None => None,
    }
}

/// The lexemes read one after the other from `p` for as long as one matches, and the
/// position where that stops.
pub open spec fn spec_lex_from(s: Seq<(usize, char)>, p: int) -> (Seq<SpecLexeme>, int)
    decreases s.len() - p,
{
    match spec_clean_lexeme(s, p) {
        Some((l, q)) => if p < q <= s.len() {
            let (rest, e) = spec_lex_from(s, q);
            (seq![l] + rest, e)
        } else {
            (seq![], p)
        },
        None => (seq![], p),
    }
}

/// The lexemes of a text: those read from its start, if they reach its end.
pub open spec fn spec_lex(text: Seq<char>) -> Result<Seq<SpecLexeme>, ParseError> {
    let s = spec_char_indices(text);
    let (ls, e) = spec_lex_from(s, 0);
    if e == s.len() {
        Ok(ls)
    } else {
        Err(ParseError::Fatal)
    }
}

// ----------------------------------------------------------------------------------------
// Facts about the grammar
// ----------------------------------------------------------------------------------------

pub proof fn lemma_text_of_concat(s: Seq<(usize, char)>, p: int, q: int, r: int)
    requires
        0 <= p <= q <= r <= s.len(),
    ensures
        text_of(s, p, q) + text_of(s, q, r) == text_of(s, p, r),
{
    assert(text_of(s, p, q) + text_of(s, q, r) =~= text_of(s, p, r));
}

pub proof fn lemma_text_of_one(s: Seq<(usize, char)>, p: int)
    requires
        0 <= p < s.len(),
    ensures
        text_of(s, p, p + 1) == seq![s[p].1],
{
    assert(text_of(s, p, p + 1) =~= seq![s[p].1]);
}

pub proof fn lemma_scan_digits(s: Seq<(usize, char)>, p: int)
    requires
        0 <= p <= s.len(),
    ensures
        p <= scan_digits(s, p) <= s.len(),
        forall|i: int| p <= i < scan_digits(s, p) ==> is_digit(#[trigger] s[i].1),
    decreases s.len() - p,
{
    if p < s.len() && is_digit(s[p].1) {
        lemma_scan_digits(s, p + 1);
    }
}

pub proof fn lemma_scan_ident(s: Seq<(usize, char)>, p: int)
    requires
        0 <= p <= s.len(),
    ensures
        p <= scan_ident(s, p) <= s.len(),
        forall|i: int| p <= i < scan_ident(s, p) ==> is_ident_char(#[trigger] s[i].1),
    decreases s.len() - p,
{
    if p < s.len() && is_ident_char(s[p].1) {
        lemma_scan_ident(s, p + 1);
    }
}

pub proof fn lemma_scan_whitespace(s: Seq<(usize, char)>, p: int)
    requires
        0 <= p <= s.len(),
    ensures
        p <= scan_whitespace(s, p) <= s.len(),
        forall|i: int| p <= i < scan_whitespace(s, p) ==> spec_is_whitespace(#[trigger] s[i].1),
    decreases s.len() - p,
{
    if p < s.len() && spec_is_whitespace(s[p].1) {
        lemma_scan_whitespace(s, p + 1);
    }
}

// ----------------------------------------------------------------------------------------
// The lexer
// ----------------------------------------------------------------------------------------

/// What a reader of one item promises: on a match, the stream has moved to where the
/// grammar says; on no match, it is where it was and the error is `Error`.
pub open spec fn reads<T, V>(
    before: CharStream,
    after: CharStream,
    r: Result<T, ParseError>,
    expected: Option<(V, int)>,
    view: spec_fn(T) -> V,
) -> bool {
    &&& after.wf()
    &&& after.items() == before.items()
    &&& match expected {
        Some((v, q)) => r matches Ok(x) && view(x) == v && after.pos() == q,
        None => r == Err::<T, ParseError>(ParseError::Error) && after.pos() == before.pos(),
    }
}

/// Reads any character.
fn lex_any(input: &mut CharStream) -> (r: Result<(usize, char), ParseError>)
    requires
        old(input).wf(),
    ensures
        reads(
            *old(input),
            *final(input),
            r,
            if 0 <= old(input).pos() < old(input).items().len() {
                Some((old(input).items()[old(input).pos()], old(input).pos() + 1))
            } else {
                None
            },
            |x: (usize, char)| x,
        ),
{
    match input.next() {
        Some(x) => Ok(x),
        None => Err(ParseError::Error),
    }
}

/// Reads the character `c`.
fn lex_char(input: &mut CharStream, c: char) -> (r: Result<(usize, char), ParseError>)
    requires
        old(input).wf(),
    ensures
        reads(
            *old(input),
            *final(input),
            r,
            if spec_char(old(input).items(), old(input).pos(), c) {
                Some((old(input).items()[old(input).pos()], old(input).pos() + 1))
            } else {
                None
            },
            |x: (usize, char)| x,
        ),
{
    let start = input.position();
    match lex_any(input) {
        Ok(x) => if x.1 == c {
            Ok(x)
        } else {
            input.set_position(start);
            Err(ParseError::Error)
        },
        Err(e) => Err(e),
    }
}

/// Reads a `:`.
fn lex_colon(input: &mut CharStream) -> (r: Result<(usize, char), ParseError>)
    requires
        old(input).wf(),
    ensures
        reads(
            *old(input),
            *final(input),
            r,
            if spec_char(old(input).items(), old(input).pos(), ':') {
                Some((old(input).items()[old(input).pos()], old(input).pos() + 1))
            } else {
                None
            },
            |x: (usize, char)| x,
        ),
{
    lex_char(input, ':')
}

/// Reads a `,`.
fn lex_comma(input: &mut CharStream) -> (r: Result<Lexeme, ParseError>)
    requires
        old(input).wf(),
    ensures
        reads(
            *old(input),
            *final(input),
            r,
            if spec_char(old(input).items(), old(input).pos(), ',') {
                Some((SpecLexeme::Comma { index: old(input).items()[old(input).pos()].0 }, old(input).pos() + 1))
            } else {
                None
            },
            |l: Lexeme| l@,
        ),
{
    match lex_char(input, ',') {
        Ok(x) => Ok(Lexeme::Comma { index: x.0 }),
        Err(e) => Err(e),
    }
}

/// Reads a `(`.
fn lex_l_paren(input: &mut CharStream) -> (r: Result<Lexeme, ParseError>)
    requires
        old(input).wf(),
    ensures
        reads(
            *old(input),
            *final(input),
            r,
            if spec_char(old(input).items(), old(input).pos(), '(') {
                Some((SpecLexeme::LParen { index: old(input).items()[old(input).pos()].0 }, old(input).pos() + 1))
            } else {
                None
            },
            |l: Lexeme| l@,
        ),
{
    match lex_char(input, '(') {
        Ok(x) => Ok(Lexeme::LParen { index: x.0 }),
        Err(e) => Err(e),
    }
}

/// Reads a `)`.
fn lex_r_paren(input: &mut CharStream) -> (r: Result<Lexeme, ParseError>)
    requires
        old(input).wf(),
    ensures
        reads(
            *old(input),
            *final(input),
            r,
            if spec_char(old(input).items(), old(input).pos(), ')') {
                Some((SpecLexeme::RParen { index: old(input).items()[old(input).pos()].0 }, old(input).pos() + 1))
            } else {
                None
            },
            |l: Lexeme| l@,
        ),
{
    match lex_char(input, ')') {
        Ok(x) => Ok(Lexeme::RParen { index: x.0 }),
        Err(e) => Err(e),
    }
}

/// Reads a `;`.
fn lex_semi_colon(input: &mut CharStream) -> (r: Result<Lexeme, ParseError>)
    requires
        old(input).wf(),
    ensures
        reads(
            *old(input),
            *final(input),
            r,
            if spec_char(old(input).items(), old(input).pos(), ';') {
                Some((SpecLexeme::SemiColon { index: old(input).items()[old(input).pos()].0 }, old(input).pos() + 1))
            } else {
                None
            },
            |l: Lexeme| l@,
        ),
{
    match lex_char(input, ';') {
        Ok(x) => Ok(Lexeme::SemiColon { index: x.0 }),
        Err(e) => Err(e),
    }
}

/// Reads a decimal digit.
fn lex_digit(input: &mut CharStream) -> (r: Result<(usize, char), ParseError>)
    requires
        old(input).wf(),
    ensures
        reads(
            *old(input),
            *final(input),
            r,
            if 0 <= old(input).pos() < old(input).items().len() && is_digit(
                old(input).items()[old(input).pos()].1,
            ) {
                Some((old(input).items()[old(input).pos()], old(input).pos() + 1))
            } else {
                None
            },
            |x: (usize, char)| x,
        ),
{
    let start = input.position();
    match lex_any(input) {
        Ok(x) => if '0' <= x.1 && x.1 <= '9' {
            Ok(x)
        } else {
            input.set_position(start);
            Err(ParseError::Error)
        },
        Err(e) => Err(e),
    }
}

/// Reads a character that may continue a symbol.
fn lex_ident_char(input: &mut CharStream) -> (r: Result<(usize, char), ParseError>)
    requires
        old(input).wf(),
    ensures
        reads(
            *old(input),
            *final(input),
            r,
            if 0 <= old(input).pos() < old(input).items().len() && is_ident_char(
                old(input).items()[old(input).pos()].1,
            ) {
                Some((old(input).items()[old(input).pos()], old(input).pos() + 1))
            } else {
                None
            },
            |x: (usize, char)| x,
        ),
{
    let start = input.position();
    match lex_any(input) {
        Ok(x) => {
            let c = x.1;
            if ('a' <= c && c <= 'z') || ('A' <= c && c <= 'Z') || ('0' <= c && c <= '9') || c
                == '_' {
                Ok(x)
            } else {
                input.set_position(start);
                Err(ParseError::Error)
            }
        },
        Err(e) => Err(e),
    }
}

/// Reads a character that may start a symbol.
fn lex_ident_start(input: &mut CharStream) -> (r: Result<(usize, char), ParseError>)
    requires
        old(input).wf(),
    ensures
        reads(
            *old(input),
            *final(input),
            r,
            if 0 <= old(input).pos() < old(input).items().len() && is_ident_start(
                old(input).items()[old(input).pos()].1,
            ) {
                Some((old(input).items()[old(input).pos()], old(input).pos() + 1))
            } else {
                None
            },
            |x: (usize, char)| x,
        ),
{
    let start = input.position();
    match lex_any(input) {
        Ok(x) => {
            let c = x.1;
            if ('a' <= c && c <= 'z') || ('A' <= c && c <= 'Z') || c == '_' {
                Ok(x)
            } else {
                input.set_position(start);
                Err(ParseError::Error)
            }
        },
        Err(e) => Err(e),
    }
}

/// Reads symbol characters for as long as there are any; returns them.
fn lex_ident_rest(input: &mut CharStream) -> (r: Vec<char>)
    requires
        old(input).wf(),
    ensures
        final(input).wf(),
        final(input).items() == old(input).items(),
        final(input).pos() == scan_ident(old(input).items(), old(input).pos()),
        r@ == text_of(old(input).items(), old(input).pos(), final(input).pos()),
{
    let ghost s = input.items();
    let ghost p0 = input.pos();
    let mut rest: Vec<char> = Vec::new();
    proof {
        lemma_scan_ident(s, p0);
    }
    loop
        invariant
            input.wf(),
            input.items() == s,
            0 <= p0 <= input.pos() <= s.len(),
            scan_ident(s, input.pos()) == scan_ident(s, p0),
            rest@ == text_of(s, p0, input.pos()),
        ensures
            input.wf(),
            input.items() == s,
            input.pos() == scan_ident(s, p0),
            rest@ == text_of(s, p0, input.pos()),
        decreases s.len() - input.pos(),
    {
        let ghost p = input.pos();
        match lex_ident_char(input) {
            Ok(x) => {
                proof {
                    assert(0 <= p < s.len() && is_ident_char(s[p].1));
                    lemma_text_of_one(s, p);
                    lemma_text_of_concat(s, p0, p, p + 1);
                }
                rest.push(x.1);
            },
            Err(_) => {
                break ;
            },
        }
    }
    rest
}

/// Reads a colon symbol.
fn lex_colon_symbol(input: &mut CharStream) -> (r: Result<Lexeme, ParseError>)
    requires
        old(input).wf(),
    ensures
        reads(
            *old(input),
            *final(input),
            r,
            spec_colon_symbol(old(input).items(), old(input).pos()),
            |l: Lexeme| l@,
        ),
{
    let ghost s = input.items();
    let ghost p = input.pos();
    let start = input.position();
    let colon = match lex_colon(input) {
        Ok(x) => x,
        Err(e) => {
            return Err(e);
        },
    };
    let init = match lex_ident_start(input) {
        Ok(x) => x.1,
        Err(_) => {
            input.set_position(start);
            return Err(ParseError::Error);
        },
    };
    let rest = lex_ident_rest(input);
    let mut value = String::new();
    push_char(&mut value, init);
    let mut i: usize = 0;
    while i < rest.len()
        invariant
            0 <= i <= rest.len(),
            value@ == seq![init] + rest@.take(i as int),
        decreases rest.len() - i,
    {
        push_char(&mut value, rest[i]);
        i = i + 1;
        proof {
            assert(rest@.take(i as int) =~= rest@.take(i - 1).push(rest@[i - 1]));
        }
    }
    proof {
        lemma_scan_ident(s, p + 2);
        lemma_text_of_one(s, p + 1);
        lemma_text_of_concat(s, p + 1, p + 2, input.pos());
        assert(rest@.take(rest.len() as int) =~= rest@);
        assert(s[p].0 + (input.pos() - 1 - p) <= s[input.pos() - 1].0);
    }
    let end = colon.0 + rest.len();
    Ok(Lexeme::ColonSymbol { value, start: colon.0, end })
}

/// Reads a symbol.
fn lex_symbol(input: &mut CharStream) -> (r: Result<Lexeme, ParseError>)
    requires
        old(input).wf(),
    ensures
        reads(
            *old(input),
            *final(input),
            r,
            spec_symbol(old(input).items(), old(input).pos()),
            |l: Lexeme| l@,
        ),
{
    let ghost s = input.items();
    let ghost p = input.pos();
    let init = match lex_ident_start(input) {
        Ok(x) => x,
        Err(e) => {
            return Err(e);
        },
    };
    let rest = lex_ident_rest(input);
    let mut value = String::new();
    push_char(&mut value, init.1);
    let mut i: usize = 0;
    while i < rest.len()
        invariant
            0 <= i <= rest.len(),
            value@ == seq![init.1] + rest@.take(i as int),
        decreases rest.len() - i,
    {
        push_char(&mut value, rest[i]);
        i = i + 1;
        proof {
            assert(rest@.take(i as int) =~= rest@.take(i - 1).push(rest@[i - 1]));
        }
    }
    proof {
        lemma_scan_ident(s, p + 1);
        lemma_text_of_one(s, p);
        lemma_text_of_concat(s, p, p + 1, input.pos());
        assert(rest@.take(rest.len() as int) =~= rest@);
        assert(s[p].0 + (input.pos() - 1 - p) <= s[input.pos() - 1].0);
    }
    let end = init.0 + rest.len();
    Ok(Lexeme::Symbol { value, start: init.0, end })
}

/// Reads a sign, `+` or `-`.
fn lex_sign(input: &mut CharStream) -> (r: Result<(usize, char), ParseError>)
    requires
        old(input).wf(),
    ensures
        reads(
            *old(input),
            *final(input),
            r,
            spec_sign(old(input).items(), old(input).pos()),
            |x: (usize, char)| x,
        ),
{
    let start = input.position();
    match lex_any(input) {
        Ok(x) => if x.1 == '+' || x.1 == '-' {
            Ok(x)
        } else {
            input.set_position(start);
            Err(ParseError::Error)
        },
        Err(e) => Err(e),
    }
}

/// Reads digits for as long as there are any; returns them with their offsets.
fn lex_many_digits(input: &mut CharStream) -> (r: Vec<(usize, char)>)
    requires
        old(input).wf(),
    ensures
        final(input).wf(),
        final(input).items() == old(input).items(),
        final(input).pos() == scan_digits(old(input).items(), old(input).pos()),
        r@ == old(input).items().subrange(old(input).pos(), final(input).pos()),
{
    let ghost s = input.items();
    let ghost p0 = input.pos();
    let mut digits: Vec<(usize, char)> = Vec::new();
    proof {
        lemma_scan_digits(s, p0);
    }
    loop
        invariant
            input.wf(),
            input.items() == s,
            0 <= p0 <= input.pos() <= s.len(),
            scan_digits(s, input.pos()) == scan_digits(s, p0),
            digits@ == s.subrange(p0, input.pos()),
        ensures
            input.wf(),
            input.items() == s,
            input.pos() == scan_digits(s, p0),
            digits@ == s.subrange(p0, input.pos()),
        decreases s.len() - input.pos(),
    {
        let ghost p = input.pos();
        match lex_digit(input) {
            Ok(x) => {
                digits.push(x);
                proof {
                    assert(digits@ =~= s.subrange(p0, p + 1));
                }
            },
            Err(_) => {
                break ;
            },
        }
    }
    digits
}

/// The characters of a sequence of characters with their offsets.
fn chars_only(xs: &Vec<(usize, char)>) -> (r: Vec<char>)
    ensures
        r@ == xs@.map_values(|x: (usize, char)| x.1),
{
    let mut r: Vec<char> = Vec::new();
    let mut i: usize = 0;
    while i < xs.len()
        invariant
            0 <= i <= xs.len(),
            r@ == xs@.take(i as int).map_values(|x: (usize, char)| x.1),
        decreases xs.len() - i,
    {
        r.push(xs[i].1);
        i = i + 1;
        proof {
            assert(xs@.take(i as int).map_values(|x: (usize, char)| x.1) =~= xs@.take(
                i - 1,
            ).map_values(|x: (usize, char)| x.1).push(xs@[i - 1].1));
        }
    }
    proof {
        assert(xs@.take(xs.len() as int) =~= xs@);
    }
    r
}

/// A run of digits: the offsets of its first and last digit, and the digits.
struct Digits {
    start: usize,
    end: usize,
    digits: Vec<char>,
}

/// The offset of the last character of a part of a number.
struct Last(usize);

/// Reads one or more digits.
fn lex_one_or_more_digits(input: &mut CharStream) -> (r: Result<Digits, ParseError>)
    requires
        old(input).wf(),
    ensures
        reads(
            *old(input),
            *final(input),
            r,
            spec_digits(old(input).items(), old(input).pos()),
            |d: Digits| (d.start, d.end, d.digits@),
        ),
{
    let ghost s = input.items();
    let ghost p = input.pos();
    let digit = match lex_digit(input) {
        Ok(x) => x,
        Err(e) => {
            return Err(e);
        },
    };
    let digits = lex_many_digits(input);
    let last = if digits.len() == 0 {
        digit.0
    } else {
        digits[digits.len() - 1].0
    };
    let mut chars = chars_only(&digits);
    chars.insert(0, digit.1);
    proof {
        let q = input.pos();
        lemma_scan_digits(s, p + 1);
        assert(chars@ =~= text_of(s, p, q));
    }
    Ok(Digits { start: digit.0, end: last, digits: chars })
}

/// Reads a decimal part: `.` and one or more digits.
fn lex_decimal(input: &mut CharStream) -> (r: Result<(Last, Vec<char>), ParseError>)
    requires
        old(input).wf(),
    ensures
        reads(
            *old(input),
            *final(input),
            r,
            spec_decimal(old(input).items(), old(input).pos()),
            |x: (Last, Vec<char>)| (x.0.0, x.1@),
        ),
{
    let ghost s = input.items();
    let ghost p = input.pos();
    let start = input.position();
    match lex_char(input, '.') {
        Ok(_) => {},
        Err(e) => {
            return Err(e);
        },
    }
    let decimal_digits = match lex_one_or_more_digits(input) {
        Ok(d) => d,
        Err(_) => {
            input.set_position(start);
            return Err(ParseError::Error);
        },
    };
    let last = Last(decimal_digits.end);
    let mut cs = decimal_digits.digits;
    cs.insert(0, '.');
    proof {
        lemma_scan_digits(s, p + 2);
        assert(cs@ =~= text_of(s, p, input.pos()));
    }
    Ok((last, cs))
}

/// Reads an exponent: `e` or `E`, an optional sign, and one or more digits.
fn lex_scientific_notation(input: &mut CharStream) -> (r: Result<(Last, Vec<char>), ParseError>)
    requires
        old(input).wf(),
    ensures
        reads(
            *old(input),
            *final(input),
            r,
            spec_exponent(old(input).items(), old(input).pos()),
            |x: (Last, Vec<char>)| (x.0.0, x.1@),
        ),
{
    let ghost s = input.items();
    let ghost p = input.pos();
    let start = input.position();
    let e_candidate = match lex_any(input) {
        Ok(x) => x,
        Err(e) => {
            return Err(e);
        },
    };
    if !(e_candidate.1 == 'e' || e_candidate.1 == 'E') {
        input.set_position(start);
        return Err(ParseError::Error);
    }
    let scientific_notation_sign = match lex_sign(input) {
        Ok(x) => Some(x),
        Err(_) => None,
    };
    let scientific_notation_digits = match lex_one_or_more_digits(input) {
        Ok(d) => d,
        Err(_) => {
            input.set_position(start);
            return Err(ParseError::Error);
        },
    };
    let last = Last(scientific_notation_digits.end);
    let mut digits = scientific_notation_digits.digits;
    match scientific_notation_sign {
        Some(sign) => {
            digits.insert(0, e_candidate.1);
            digits.insert(1, sign.1);
            proof {
                let r = p + 2;
                lemma_scan_digits(s, r + 1);
                assert(digits@ =~= text_of(s, p, input.pos()));
            }
            Ok((last, digits))
        },
        None => {
            digits.insert(0, e_candidate.1);
            proof {
                let r = p + 1;
                lemma_scan_digits(s, r + 1);
                assert(digits@ =~= text_of(s, p, input.pos()));
            }
            Ok((last, digits))
        },
    }
}

/// Appends the characters of `cs` to `s`.
fn push_chars(s: &mut String, cs: &Vec<char>)
    ensures
        final(s)@ == old(s)@ + cs@,
{
    let mut i: usize = 0;
    while i < cs.len()
        invariant
            0 <= i <= cs.len(),
            s@ == old(s)@ + cs@.take(i as int),
        decreases cs.len() - i,
    {
        push_char(s, cs[i]);
        i = i + 1;
        proof {
            assert(old(s)@ + cs@.take(i as int) =~= (old(s)@ + cs@.take(i - 1)).push(cs@[i - 1]));
        }
    }
    proof {
        assert(cs@.take(cs.len() as int) =~= cs@);
    }
}

/// Reads a number literal.
pub fn lex_float(input: &mut CharStream) -> (r: Result<Lexeme, ParseError>)
    requires
        old(input).wf(),
    ensures
        reads(
            *old(input),
            *final(input),
            r,
            spec_float(old(input).items(), old(input).pos()),
            |l: Lexeme| l@,
        ),
{
    let ghost s = input.items();
    let ghost p = input.pos();
    let start_pos = input.position();
    let float_sign = match lex_sign(input) {
        Ok(x) => Some(x),
        Err(_) => None,
    };
    let ghost q0 = input.pos();
    let float_digits = match lex_one_or_more_digits(input) {
        Ok(d) => d,
        Err(_) => {
            input.set_position(start_pos);
            return Err(ParseError::Error);
        },
    };
    let ghost q1 = input.pos();
    let decimal = match lex_decimal(input) {
        Ok(x) => Some(x),
        Err(_) => None,
    };
    let ghost q2 = input.pos();
    let scientific_notation = match lex_scientific_notation(input) {
        Ok(x) => Some(x),
        Err(_) => None,
    };
    let ghost q3 = input.pos();
    let start = match &float_sign {
        Some(x) => x.0,
        None => float_digits.start,
    };
    let end = match &scientific_notation {
        Some(x) => x.0.0,
        None => match &decimal {
            Some(x) => x.0.0,
            None => float_digits.end,
        },
    };
    let mut value = String::new();
    match &float_sign {
        Some(x) => {
            push_char(&mut value, x.1);
        },
        None => {},
    }
    push_chars(&mut value, &float_digits.digits);
    match &decimal {
        Some(x) => {
            push_chars(&mut value, &x.1);
        },
        None => {},
    }
    match &scientific_notation {
        Some(x) => {
            push_chars(&mut value, &x.1);
        },
        None => {},
    }
    proof {
        lemma_scan_digits(s, q0 + 1);
        if float_sign is Some {
            lemma_text_of_one(s, p);
        }
        assert(value@.take(0) =~= Seq::<char>::empty());
        assert(text_of(s, p, p) =~= Seq::<char>::empty());
        lemma_text_of_concat(s, p, q0, q1);
        if decimal is Some {
            lemma_scan_digits(s, q1 + 2);
        }
        lemma_text_of_concat(s, p, q1, q2);
        if scientific_notation is Some {
            lemma_scan_digits(s, q2 + 1);
            lemma_scan_digits(s, q2 + 2);
        }
        lemma_text_of_concat(s, p, q2, q3);
    }
    Ok(Lexeme::Float { value, start, end })
}

/// Reads one lexeme: the first kind that matches, in the order of `spec_lexeme`.
fn lex_lexeme(input: &mut CharStream) -> (r: Result<Lexeme, ParseError>)
    requires
        old(input).wf(),
    ensures
        reads(
            *old(input),
            *final(input),
            r,
            spec_lexeme(old(input).items(), old(input).pos()),
            |l: Lexeme| l@,
        ),
{
    match lex_float(input) {
        Ok(l) => {
            return Ok(l);
        },
        Err(_) => {},
    }
    match lex_comma(input) {
        Ok(l) => {
            return Ok(l);
        },
        Err(_) => {},
    }
    match lex_l_paren(input) {
        Ok(l) => {
            return Ok(l);
        },
        Err(_) => {},
    }
    match lex_r_paren(input) {
        Ok(l) => {
            return Ok(l);
        },
        Err(_) => {},
    }
    match lex_semi_colon(input) {
        Ok(l) => {
            return Ok(l);
        },
        Err(_) => {},
    }
    match lex_colon_symbol(input) {
        Ok(l) => {
            return Ok(l);
        },
        Err(_) => {},
    }
    lex_symbol(input)
}

/// Reads one white-space character.
fn space(input: &mut CharStream) -> (r: Result<(), ParseError>)
    requires
        old(input).wf(),
    ensures
        reads(
            *old(input),
            *final(input),
            r,
            if 0 <= old(input).pos() < old(input).items().len() && spec_is_whitespace(
                old(input).items()[old(input).pos()].1,
            ) {
                Some(((), old(input).pos() + 1))
            } else {
                None
            },
            |x: ()| x,
        ),
{
    let start = input.position();
    match lex_any(input) {
        Ok(x) => if is_whitespace(x.1) {
            Ok(())
        } else {
            input.set_position(start);
            Err(ParseError::Error)
        },
        Err(e) => Err(e),
    }
}

/// Reads white space for as long as there is any. Never fails.
fn junk(input: &mut CharStream) -> (r: Result<(), ParseError>)
    requires
        old(input).wf(),
    ensures
        r == Ok::<(), ParseError>(()),
        final(input).wf(),
        final(input).items() == old(input).items(),
        final(input).pos() == scan_whitespace(old(input).items(), old(input).pos()),
{
    let ghost s = input.items();
    let ghost p0 = input.pos();
    proof {
        lemma_scan_whitespace(s, p0);
    }
    loop
        invariant
            input.wf(),
            input.items() == s,
            0 <= p0 <= input.pos() <= s.len(),
            scan_whitespace(s, input.pos()) == scan_whitespace(s, p0),
        ensures
            input.wf(),
            input.items() == s,
            input.pos() == scan_whitespace(s, p0),
        decreases s.len() - input.pos(),
    {
        match space(input) {
            Ok(_) => {},
            Err(_) => {
                break ;
            },
        }
    }
    Ok(())
}

/// Reads one lexeme with the white space before and after it.
fn lex_clean_lexeme(input: &mut CharStream) -> (r: Result<Lexeme, ParseError>)
    requires
        old(input).wf(),
    ensures
        reads(
            *old(input),
            *final(input),
            r,
            spec_clean_lexeme(old(input).items(), old(input).pos()),
            |l: Lexeme| l@,
        ),
{
    let start = input.position();
    let _ = junk(input);
    let lexeme = match lex_lexeme(input) {
        Ok(l) => l,
        Err(_) => {
            input.set_position(start);
            return Err(ParseError::Error);
        },
    };
    let _ = junk(input);
    Ok(lexeme)
}

/// A number literal takes at least one character.
proof fn lemma_float_moves(s: Seq<(usize, char)>, a: int)
    requires
        0 <= a <= s.len(),
    ensures
        spec_float(s, a) matches Some((_, b)) ==> a < b <= s.len(),
{
    let q0 = match spec_sign(s, a) {
        Some((_, q)) => q,
        None => a,
    };
    if spec_digits(s, q0) is Some {
        lemma_scan_digits(s, q0 + 1);
        let q1 = scan_digits(s, q0 + 1);
        if spec_decimal(s, q1) is Some {
            lemma_scan_digits(s, q1 + 2);
        }
        let q2 = match spec_decimal(s, q1) {
            Some((_, q)) => q,
            None => q1,
        };
        if spec_exponent(s, q2) is Some {
            let r = if q2 + 1 < s.len() && is_sign(s[q2 + 1].1) {
                q2 + 2
            } else {
                q2 + 1
            };
            lemma_scan_digits(s, r + 1);
        }
    }
}

/// Every lexeme takes at least one character.
proof fn lemma_lexeme_moves(s: Seq<(usize, char)>, a: int)
    requires
        0 <= a <= s.len(),
    ensures
        spec_lexeme(s, a) matches Some((_, b)) ==> a < b <= s.len(),
{
    lemma_float_moves(s, a);
    if a + 2 <= s.len() {
        lemma_scan_ident(s, a + 2);
    }
    if a + 1 <= s.len() {
        lemma_scan_ident(s, a + 1);
    }
}

/// A lexeme with its white space takes at least one character.
pub proof fn lemma_clean_lexeme_moves(s: Seq<(usize, char)>, p: int)
    requires
        0 <= p <= s.len(),
    ensures
        spec_clean_lexeme(s, p) matches Some((_, q)) ==> p < q <= s.len(),
{
    lemma_scan_whitespace(s, p);
    let a = scan_whitespace(s, p);
    lemma_lexeme_moves(s, a);
    if let Some((_, b)) = spec_lexeme(s, a) {
        lemma_scan_whitespace(s, b);
    }
}

/// Splits a text into lexemes. White space may stand before, between and after the
/// lexemes. Fails with `ParseError::Fatal` where some text is left that starts no lexeme;
/// the grammar is `spec_lex`.
pub fn lex(input: &str) -> (r: Result<Vec<Lexeme>, ParseError>)
    requires
        encode_utf8(input@).len() <= usize::MAX,
    ensures
        match spec_lex(input@) {
            Ok(ls) => r matches Ok(v) && lexemes_view(v@) == ls,
            Err(e) => r == Err::<Vec<Lexeme>, ParseError>(e),
        },
{
    let mut stream = CharStream::new(input);
    let ghost s = stream.items();
    let mut clean_lexemes: Vec<Lexeme> = Vec::new();
    loop
        invariant
            stream.wf(),
            stream.items() == s,
            s == spec_char_indices(input@),
            lexemes_view(clean_lexemes@) + spec_lex_from(s, stream.pos()).0 == spec_lex_from(
                s,
                0,
            ).0,
            spec_lex_from(s, stream.pos()).1 == spec_lex_from(s, 0).1,
        ensures
            stream.wf(),
            stream.items() == s,
            lexemes_view(clean_lexemes@) == spec_lex_from(s, 0).0,
            stream.pos() == spec_lex_from(s, 0).1,
        decreases s.len() - stream.pos(),
    {
        let ghost p = stream.pos();
        proof {
            lemma_clean_lexeme_moves(s, p);
        }
        match lex_clean_lexeme(&mut stream) {
            Ok(l) => {
                proof {
                    assert(lexemes_view(clean_lexemes@.push(l)) =~= lexemes_view(clean_lexemes@).push(l@));
                    assert(lexemes_view(clean_lexemes@).push(l@) + spec_lex_from(s, stream.pos()).0
                        =~= lexemes_view(clean_lexemes@) + (seq![l@] + spec_lex_from(s, stream.pos()).0));
                }
                clean_lexemes.push(l);
            },
            Err(_) => {
                proof {
                    assert(lexemes_view(clean_lexemes@) + Seq::<SpecLexeme>::empty() =~= lexemes_view(clean_lexemes@));
                }
                break ;
            },
        }
    }
    if stream.at_end() {
        Ok(clean_lexemes)
    } else {
        Err(ParseError::Fatal)
    }
}

/// Where a lexeme starts: the offset of its first character (of the colon, for a colon
/// symbol).
pub open spec fn lexeme_start(l: SpecLexeme) -> usize {
    match l {
        SpecLexeme::LParen { index } => index,
        SpecLexeme::RParen { index } => index,
        SpecLexeme::Comma { index } => index,
        SpecLexeme::SemiColon { index } => index,
        SpecLexeme::Float { start, .. } => start,
        SpecLexeme::Symbol { start, .. } => start,
        SpecLexeme::ColonSymbol { start, .. } => start,
    }
}

/// A lexeme read from `p` starts at the first character that is not white space.
proof fn lemma_clean_lexeme_start(s: Seq<(usize, char)>, p: int)
    requires
        0 <= p <= s.len(),
    ensures
        spec_clean_lexeme(s, p) matches Some((l, q)) ==> {
            let a = scan_whitespace(s, p);
            &&& p <= a < q
            &&& lexeme_start(l) == s[a].0
        },
{
    lemma_clean_lexeme_moves(s, p);
    lemma_scan_whitespace(s, p);
    let a = scan_whitespace(s, p);
    lemma_lexeme_moves(s, a);
    if let Some((_, b)) = spec_lexeme(s, a) {
        lemma_scan_whitespace(s, b);
    }
}

/// The lexemes read from `p` start at characters at or after `p`, in the order of the text.
proof fn lemma_lex_from_in_order(s: Seq<(usize, char)>, p: int)
    requires
        0 <= p <= s.len(),
        offsets_increasing(s),
    ensures
        forall|k: int|
            0 <= k < spec_lex_from(s, p).0.len() ==> exists|a: int|
                p <= a < s.len() && lexeme_start(#[trigger] spec_lex_from(s, p).0[k]) == s[a].0,
        forall|i: int, j: int|
            0 <= i < j < spec_lex_from(s, p).0.len() ==> lexeme_start(spec_lex_from(s, p).0[i])
                < lexeme_start(spec_lex_from(s, p).0[j]),
    decreases s.len() - p,
{
    lemma_clean_lexeme_start(s, p);
    if let Some((l, q)) = spec_clean_lexeme(s, p) {
        if p < q <= s.len() {
            lemma_lex_from_in_order(s, q);
            let rest = spec_lex_from(s, q).0;
            let ls = spec_lex_from(s, p).0;
            let a = scan_whitespace(s, p);
            assert(ls == seq![l] + rest);
            assert forall|k: int| 0 <= k < ls.len() implies exists|b: int|
                p <= b < s.len() && lexeme_start(#[trigger] ls[k]) == s[b].0 by {
                if k == 0 {
                    assert(lexeme_start(ls[0]) == s[a].0);
                } else {
                    assert(ls[k] == rest[k - 1]);
                }
            }
            assert forall|i: int, j: int| 0 <= i < j < ls.len() implies lexeme_start(ls[i])
                < lexeme_start(ls[j]) by {
                if i == 0 {
                    assert(ls[j] == rest[j - 1]);
                    let b = choose|b: int| q <= b < s.len() && lexeme_start(rest[j - 1]) == s[b].0;
                    assert(s[a].0 + (b - a) <= s[b].0);
                } else {
                    assert(ls[i] == rest[i - 1]);
                    assert(ls[j] == rest[j - 1]);
                }
            }
        }
    }
}

/// The lexemes of a text come in the order of the text: each starts after the one before.
pub proof fn lemma_lex_in_order(text: Seq<char>)
    requires
        encode_utf8(text).len() <= usize::MAX,
    ensures
        spec_lex(text) matches Ok(ls) ==> forall|i: int, j: int|
            0 <= i < j < ls.len() ==> lexeme_start(ls[i]) < lexeme_start(ls[j]),
{
    let s = spec_char_indices(text);
    assert forall|a: int, b: int|
        #![trigger s[a], s[b]]
        0 <= a <= b < s.len() implies s[a].0 + (b - a) <= s[b].0 by {
        lemma_byte_offset_bounds(text, a, b);
        lemma_byte_offset_bounds(text, b, b);
    }
    lemma_lex_from_in_order(s, 0);
}

} // verus!
