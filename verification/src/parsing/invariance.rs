use vstd::prelude::*;
use vstd::utf8::{encode_scalar, encode_utf8};

use crate::data::SpecLexeme;
use crate::parsing::lexer::{
    is_digit, is_sign, lemma_clean_lexeme_moves, lemma_scan_whitespace, lemma_text_of_concat,
    lemma_text_of_one, scan_digits, scan_ident, scan_whitespace, spec_colon_symbol, spec_decimal,
    spec_digits, spec_exponent, spec_float, spec_lex, spec_lex_from, spec_lexeme, spec_sign,
    spec_symbol,
};
use crate::parsing::stream::text_of;
use crate::text::{
    byte_offset, lemma_byte_offset_bounds, lemma_encode_utf8_concat, spec_char_indices,
    spec_is_whitespace,
};

verus! {

// ----------------------------------------------------------------------------------------
// A word read at two places
// ----------------------------------------------------------------------------------------

/// From position `a` of `s` and from position `b` of `u` stand the same `n` characters, none
/// of them white space; after them both texts have white space, or both end.
spec fn same_word(s: Seq<(usize, char)>, a: int, u: Seq<(usize, char)>, b: int, n: int) -> bool {
    &&& 0 <= a && 0 <= b && 0 <= n
    &&& a + n <= s.len() && b + n <= u.len()
    &&& forall|k: int|
        a <= k < a + n ==> #[trigger] s[k].1 == u[k - a + b].1 && !spec_is_whitespace(s[k].1)
    &&& (a + n == s.len()) == (b + n == u.len())
    &&& a + n < s.len() ==> spec_is_whitespace(s[a + n].1) && spec_is_whitespace(u[b + n].1)
}

/// What `same_word` says of the characters at one relative position.
proof fn lemma_same_word_at(s: Seq<(usize, char)>, a: int, u: Seq<(usize, char)>, b: int, n: int, i: int)
    requires
        same_word(s, a, u, b, n),
        0 <= i <= n,
    ensures
        i < n ==> a + i < s.len() && b + i < u.len() && s[a + i].1 == u[b + i].1
            && !spec_is_whitespace(s[a + i].1),
        i == n ==> (a + i < s.len()) == (b + i < u.len()),
        i == n && a + i < s.len() ==> spec_is_whitespace(s[a + i].1) && spec_is_whitespace(
            u[b + i].1,
        ),
{
    if i < n {
        assert(s[a + i].1 == u[(a + i) - a + b].1);
    }
}

/// The characters between two relative positions of the word are the same in both texts.
proof fn lemma_same_word_text(s: Seq<(usize, char)>, a: int, u: Seq<(usize, char)>, b: int, n: int, i: int, j: int)
    requires
        same_word(s, a, u, b, n),
        0 <= i <= j <= n,
    ensures
        text_of(s, a + i, a + j) == text_of(u, b + i, b + j),
{
    assert forall|k: int| 0 <= k < j - i implies #[trigger] text_of(s, a + i, a + j)[k] == text_of(
        u,
        b + i,
        b + j,
    )[k] by {
        lemma_same_word_at(s, a, u, b, n, i + k);
    }
    assert(text_of(s, a + i, a + j) =~= text_of(u, b + i, b + j));
}

proof fn lemma_same_word_scan_digits(s: Seq<(usize, char)>, a: int, u: Seq<(usize, char)>, b: int, n: int, i: int)
    requires
        same_word(s, a, u, b, n),
        0 <= i <= n,
    ensures
        scan_digits(s, a + i) - a == scan_digits(u, b + i) - b,
        a + i <= scan_digits(s, a + i) <= a + n,
    decreases n - i,
{
    lemma_same_word_at(s, a, u, b, n, i);
    if i < n {
        lemma_same_word_scan_digits(s, a, u, b, n, i + 1);
    }
}

proof fn lemma_same_word_scan_ident(s: Seq<(usize, char)>, a: int, u: Seq<(usize, char)>, b: int, n: int, i: int)
    requires
        same_word(s, a, u, b, n),
        0 <= i <= n,
    ensures
        scan_ident(s, a + i) - a == scan_ident(u, b + i) - b,
        a + i <= scan_ident(s, a + i) <= a + n,
    decreases n - i,
{
    lemma_same_word_at(s, a, u, b, n, i);
    if i < n {
        lemma_same_word_scan_ident(s, a, u, b, n, i + 1);
    }
}

proof fn lemma_same_word_digits(s: Seq<(usize, char)>, a: int, u: Seq<(usize, char)>, b: int, n: int, i: int)
    requires
        same_word(s, a, u, b, n),
        0 <= i <= n,
    ensures
        spec_digits(s, a + i) is Some == spec_digits(u, b + i) is Some,
        spec_digits(s, a + i) matches Some((d, q)) ==> {
            &&& spec_digits(u, b + i) matches Some((d2, q2))
            &&& q - a == q2 - b
            &&& d.2 == d2.2
            &&& a + i < q <= a + n
        },
{
    lemma_same_word_at(s, a, u, b, n, i);
    if i < n {
        lemma_same_word_scan_digits(s, a, u, b, n, i + 1);
        let q = scan_digits(s, a + i + 1);
        lemma_same_word_text(s, a, u, b, n, i, q - a);
    }
}

proof fn lemma_same_word_decimal(s: Seq<(usize, char)>, a: int, u: Seq<(usize, char)>, b: int, n: int, i: int)
    requires
        same_word(s, a, u, b, n),
        0 <= i <= n,
    ensures
        spec_decimal(s, a + i) is Some == spec_decimal(u, b + i) is Some,
        spec_decimal(s, a + i) matches Some((d, q)) ==> {
            &&& spec_decimal(u, b + i) matches Some((d2, q2))
            &&& q - a == q2 - b
            &&& d.1 == d2.1
            &&& a + i < q <= a + n
        },
{
    lemma_same_word_at(s, a, u, b, n, i);
    if i < n {
        lemma_same_word_at(s, a, u, b, n, i + 1);
        if i + 1 < n {
            lemma_same_word_scan_digits(s, a, u, b, n, i + 2);
            let q = scan_digits(s, a + i + 2);
            lemma_same_word_text(s, a, u, b, n, i, q - a);
        }
    }
}

proof fn lemma_same_word_exponent(s: Seq<(usize, char)>, a: int, u: Seq<(usize, char)>, b: int, n: int, i: int)
    requires
        same_word(s, a, u, b, n),
        0 <= i <= n,
    ensures
        spec_exponent(s, a + i) is Some == spec_exponent(u, b + i) is Some,
        spec_exponent(s, a + i) matches Some((d, q)) ==> {
            &&& spec_exponent(u, b + i) matches Some((d2, q2))
            &&& q - a == q2 - b
            &&& d.1 == d2.1
            &&& a + i < q <= a + n
        },
{
    lemma_same_word_at(s, a, u, b, n, i);
    if i < n {
        lemma_same_word_at(s, a, u, b, n, i + 1);
        if i + 1 < n {
            lemma_same_word_at(s, a, u, b, n, i + 2);
        }
        let r = if a + i + 1 < s.len() && is_sign(s[a + i + 1].1) {
            i + 2
        } else {
            i + 1
        };
        if r < n {
            lemma_same_word_scan_digits(s, a, u, b, n, r + 1);
            let q = scan_digits(s, a + r + 1);
            lemma_same_word_text(s, a, u, b, n, i, q - a);
        }
    }
}

/// A number literal read at the start of the same word.
#[verifier::spinoff_prover]
#[verifier::rlimit(40)]
proof fn lemma_same_word_float(s: Seq<(usize, char)>, a: int, u: Seq<(usize, char)>, b: int, n: int)
    requires
        same_word(s, a, u, b, n),
    ensures
        spec_float(s, a) is Some == spec_float(u, b) is Some,
        spec_float(s, a) matches Some((l, q)) ==> {
            &&& spec_float(u, b) matches Some((l2, q2))
            &&& q - a == q2 - b
            &&& l->Float_value == l2->Float_value
            &&& a < q <= a + n
        },
{
    lemma_same_word_at(s, a, u, b, n, 0);
    let i0: int = if a < s.len() && is_sign(s[a].1) {
        1
    } else {
        0
    };
    if n > 0 {
        lemma_same_word_at(s, a, u, b, n, 1);
    }
    if i0 <= n {
        lemma_same_word_digits(s, a, u, b, n, i0);
        if let Some((_, q1)) = spec_digits(s, a + i0) {
            lemma_same_word_decimal(s, a, u, b, n, q1 - a);
            let q2 = match spec_decimal(s, q1) {
                Some((_, q)) => q,
                None => q1,
            };
            lemma_same_word_exponent(s, a, u, b, n, q2 - a);
            let q3 = match spec_exponent(s, q2) {
                Some((_, q)) => q,
                None => q2,
            };
            lemma_same_word_text(s, a, u, b, n, 0, q3 - a);
        }
    }
}

/// A symbol read at the start of the same word.
proof fn lemma_same_word_symbol(s: Seq<(usize, char)>, a: int, u: Seq<(usize, char)>, b: int, n: int)
    requires
        same_word(s, a, u, b, n),
    ensures
        spec_symbol(s, a) is Some == spec_symbol(u, b) is Some,
        spec_symbol(s, a) matches Some((l, q)) ==> {
            &&& spec_symbol(u, b) matches Some((l2, q2))
            &&& q - a == q2 - b
            &&& l->Symbol_value == l2->Symbol_value
            &&& a < q <= a + n
        },
{
    lemma_same_word_at(s, a, u, b, n, 0);
    if n > 0 {
        lemma_same_word_scan_ident(s, a, u, b, n, 1);
        let q = scan_ident(s, a + 1);
        lemma_same_word_text(s, a, u, b, n, 0, q - a);
    }
}

/// A colon symbol read at the start of the same word.
proof fn lemma_same_word_colon_symbol(s: Seq<(usize, char)>, a: int, u: Seq<(usize, char)>, b: int, n: int)
    requires
        same_word(s, a, u, b, n),
    ensures
        spec_colon_symbol(s, a) is Some == spec_colon_symbol(u, b) is Some,
        spec_colon_symbol(s, a) matches Some((l, q)) ==> {
            &&& spec_colon_symbol(u, b) matches Some((l2, q2))
            &&& q - a == q2 - b
            &&& l->ColonSymbol_value == l2->ColonSymbol_value
            &&& a < q <= a + n
        },
{
    lemma_same_word_at(s, a, u, b, n, 0);
    if n > 0 {
        lemma_same_word_at(s, a, u, b, n, 1);
        if n > 1 {
            lemma_same_word_scan_ident(s, a, u, b, n, 2);
            let q = scan_ident(s, a + 2);
            lemma_same_word_text(s, a, u, b, n, 1, q - a);
        }
    }
}

/// A lexeme without its position: its kind and its text.
pub open spec fn lexeme_content(l: SpecLexeme) -> SpecLexeme {
    match l {
        SpecLexeme::LParen { .. } => SpecLexeme::LParen { index: 0 },
        SpecLexeme::RParen { .. } => SpecLexeme::RParen { index: 0 },
        SpecLexeme::Comma { .. } => SpecLexeme::Comma { index: 0 },
        SpecLexeme::SemiColon { .. } => SpecLexeme::SemiColon { index: 0 },
        SpecLexeme::Float { value, .. } => SpecLexeme::Float { value, start: 0, end: 0 },
        SpecLexeme::Symbol { value, .. } => SpecLexeme::Symbol { value, start: 0, end: 0 },
        SpecLexeme::ColonSymbol { value, .. } => SpecLexeme::ColonSymbol {
            value,
            start: 0,
            end: 0,
        },
    }
}

/// The contents of a sequence of lexemes.
pub open spec fn lexeme_contents(ls: Seq<SpecLexeme>) -> Seq<SpecLexeme> {
    ls.map_values(|l: SpecLexeme| lexeme_content(l))
}

/// A lexeme read at the start of the same word has the same content and length in both
/// texts, and ends within the word.
proof fn lemma_same_word_lexeme(s: Seq<(usize, char)>, a: int, u: Seq<(usize, char)>, b: int, n: int)
    requires
        same_word(s, a, u, b, n),
    ensures
        spec_lexeme(s, a) is Some == spec_lexeme(u, b) is Some,
        spec_lexeme(s, a) matches Some((l, q)) ==> {
            &&& spec_lexeme(u, b) matches Some((l2, q2))
            &&& q - a == q2 - b
            &&& lexeme_content(l) == lexeme_content(l2)
            &&& a < q <= a + n
        },
{
    lemma_same_word_at(s, a, u, b, n, 0);
    lemma_same_word_float(s, a, u, b, n);
    lemma_same_word_symbol(s, a, u, b, n);
    lemma_same_word_colon_symbol(s, a, u, b, n);
}

// ----------------------------------------------------------------------------------------
// A sign put before a number literal
// ----------------------------------------------------------------------------------------

/// The first position at or after `p` that holds white space, or the end of the text.
spec fn word_end(s: Seq<(usize, char)>, p: int) -> int
    decreases s.len() - p,
{
    if 0 <= p < s.len() && !spec_is_whitespace(s[p].1) {
        word_end(s, p + 1)
    } else {
        p
    }
}

proof fn lemma_word_end(s: Seq<(usize, char)>, p: int)
    requires
        0 <= p <= s.len(),
    ensures
        p <= word_end(s, p) <= s.len(),
        forall|k: int| p <= k < word_end(s, p) ==> !spec_is_whitespace(#[trigger] s[k].1),
        word_end(s, p) < s.len() ==> spec_is_whitespace(s[word_end(s, p)].1),
    decreases s.len() - p,
{
    if p < s.len() && !spec_is_whitespace(s[p].1) {
        lemma_word_end(s, p + 1);
    }
}

/// A one-byte character put in front of a text shifts every character by one position and
/// every offset by one byte.
proof fn lemma_prefix_offsets(c: char, t: Seq<char>)
    requires
        is_sign(c),
        encode_utf8(seq![c] + t).len() <= usize::MAX,
    ensures
        spec_char_indices(seq![c] + t).len() == t.len() + 1,
        spec_char_indices(seq![c] + t)[0] == (0usize, c),
        spec_char_indices(t).len() > 0 ==> spec_char_indices(t)[0].0 == 0,
        forall|k: int|
            0 <= k < t.len() ==> spec_char_indices(seq![c] + t)[k + 1].0 == (
            #[trigger] spec_char_indices(t)[k]).0 + 1 && spec_char_indices(seq![c] + t)[k + 1].1
                == spec_char_indices(t)[k].1,
{
    let st = seq![c] + t;
    assert(encode_utf8(Seq::<char>::empty()) =~= Seq::<u8>::empty());
    assert(seq![c].drop_first() =~= Seq::<char>::empty());
    assert(encode_utf8(seq![c]) =~= encode_scalar(c as u32));
    assert(encode_utf8(seq![c]).len() == 1);
    assert(st.take(0) =~= Seq::<char>::empty());
    assert(t.take(0) =~= Seq::<char>::empty());
    assert(byte_offset(t, 0) == 0);
    assert(byte_offset(st, 0) == 0);
    assert forall|k: int| 0 <= k < t.len() implies spec_char_indices(st)[k + 1].0 == (
    #[trigger] spec_char_indices(t)[k]).0 + 1 && spec_char_indices(st)[k + 1].1
        == spec_char_indices(t)[k].1 by {
        assert(st.take(k + 1) =~= seq![c] + t.take(k));
        lemma_encode_utf8_concat(seq![c], t.take(k));
        assert(byte_offset(st, k + 1) == byte_offset(t, k) + 1);
        lemma_byte_offset_bounds(st, k + 1, st.len() as int);
        assert(st[k + 1] == t[k]);
    }
}

/// The number literal read after a sign is the one read from the same characters without it.
proof fn lemma_sign_shift(s: Seq<(usize, char)>, u: Seq<(usize, char)>, n: int, sign: char)
    requires
        same_word(s, 0, u, 1, n),
        0 < s.len(),
        is_digit(s[0].1),
        u.len() == s.len() + 1,
        u[0].1 == sign,
        is_sign(sign),
        forall|k: int| 0 <= k < s.len() ==> u[k + 1].0 == (#[trigger] s[k]).0 + 1,
    ensures
        spec_float(s, 0) matches Some((SpecLexeme::Float { value, start, end }, q))
            && spec_float(u, 0) == Some((
            SpecLexeme::Float { value: seq![sign] + value, start: u[0].0, end: (end + 1) as usize },
            q + 1,
        )),
{
    assert(spec_sign(s, 0) is None);
    assert(spec_sign(u, 0) == Some((u[0], 1int)));
    lemma_same_word_digits(s, 0, u, 1, n, 0);
    let q1 = match spec_digits(s, 0) {
        Some((_, q)) => q,
        None => 0,
    };
    lemma_same_word_decimal(s, 0, u, 1, n, q1);
    let q2 = match spec_decimal(s, q1) {
        Some((_, q)) => q,
        None => q1,
    };
    lemma_same_word_exponent(s, 0, u, 1, n, q2);
    let q3 = match spec_exponent(s, q2) {
        Some((_, q)) => q,
        None => q2,
    };
    lemma_same_word_text(s, 0, u, 1, n, 0, q3);
    lemma_text_of_concat(u, 0, 1, q3 + 1);
    lemma_text_of_one(u, 0);
    assert(u[q3].0 == s[q3 - 1].0 + 1);
}

/// A sign, `+` or `-`, put before a text that starts with a digit makes the number literal
/// read from its start the literal of the text with the sign in front: its value gains the
/// sign as its first character, it still starts at offset 0, it ends one byte later, and it
/// takes one character more.
pub proof fn lemma_sign_before_number(sign: char, t: Seq<char>)
    requires
        is_sign(sign),
        0 < t.len(),
        is_digit(t[0]),
        encode_utf8(seq![sign] + t).len() <= usize::MAX,
    ensures
        spec_float(spec_char_indices(t), 0) matches Some((SpecLexeme::Float { value, start, end }, q)) && start == 0
            && spec_float(spec_char_indices(seq![sign] + t), 0) == Some((
            SpecLexeme::Float { value: seq![sign] + value, start: 0, end: (end + 1) as usize },
            q + 1,
        )),
{
    let ts = spec_char_indices(t);
    let us = spec_char_indices(seq![sign] + t);
    lemma_prefix_offsets(sign, t);
    lemma_word_end(ts, 0);
    let n = word_end(ts, 0);
    assert forall|k: int| 0 <= k < n implies #[trigger] ts[k].1 == us[k - 0 + 1].1
        && !spec_is_whitespace(ts[k].1) by {
        assert(us[k + 1].1 == ts[k].1);
    }
    if n < ts.len() {
        assert(us[n + 1].1 == ts[n].1);
    }
    assert(same_word(ts, 0, us, 1, n));
    assert(ts[0].1 == t[0]);
    lemma_sign_shift(ts, us, n, sign);
}

// ----------------------------------------------------------------------------------------
// Runs of white space
// ----------------------------------------------------------------------------------------

/// The characters of a text read with their offsets.
spec fn chars_of(s: Seq<(usize, char)>) -> Seq<char> {
    s.map_values(|c: (usize, char)| c.1)
}

/// From position `i` of `x` and position `j` of `y` on, the two texts differ at most in
/// their runs of white space: the characters that are not white space are the same and come
/// in the same order, and where one text has a run of white space the other has a run too,
/// made of any white space characters and of any nonempty length.
pub open spec fn same_but_spacing_from(x: Seq<char>, i: int, y: Seq<char>, j: int) -> bool
    decreases x.len() - i + y.len() - j,
{
    if i < 0 || j < 0 || i > x.len() || j > y.len() {
        false
    } else if i == x.len() || j == y.len() {
        i == x.len() && j == y.len()
    } else if spec_is_whitespace(x[i]) && spec_is_whitespace(y[j]) {
        if i + 1 < x.len() && spec_is_whitespace(x[i + 1]) {
            same_but_spacing_from(x, i + 1, y, j)
        } else if j + 1 < y.len() && spec_is_whitespace(y[j + 1]) {
            same_but_spacing_from(x, i, y, j + 1)
        } else {
            same_but_spacing_from(x, i + 1, y, j + 1)
        }
    } else {
        !spec_is_whitespace(x[i]) && x[i] == y[j] && same_but_spacing_from(x, i + 1, y, j + 1)
    }
}

/// Two texts that differ at most in their runs of white space.
pub open spec fn same_but_spacing(x: Seq<char>, y: Seq<char>) -> bool {
    same_but_spacing_from(x, 0, y, 0)
}

/// Both texts end at the same time.
proof fn lemma_spacing_ends(x: Seq<char>, i: int, y: Seq<char>, j: int)
    requires
        same_but_spacing_from(x, i, y, j),
    ensures
        0 <= i <= x.len(),
        0 <= j <= y.len(),
        (i == x.len()) == (j == y.len()),
        i < x.len() && spec_is_whitespace(x[i]) ==> spec_is_whitespace(y[j]),
        i < x.len() && !spec_is_whitespace(x[i]) ==> y[j] == x[i] && same_but_spacing_from(
            x,
            i + 1,
            y,
            j + 1,
        ),
{
}

/// Skipping the white space at the current positions keeps the texts alike.
proof fn lemma_spacing_skip(s: Seq<(usize, char)>, p: int, u: Seq<(usize, char)>, q: int)
    requires
        same_but_spacing_from(chars_of(s), p, chars_of(u), q),
    ensures
        same_but_spacing_from(chars_of(s), scan_whitespace(s, p), chars_of(u), scan_whitespace(u, q)),
    decreases s.len() - p + u.len() - q,
{
    let x = chars_of(s);
    let y = chars_of(u);
    lemma_spacing_ends(x, p, y, q);
    if p < s.len() {
        assert(x[p] == s[p].1);
        assert(y[q] == u[q].1);
        if spec_is_whitespace(x[p]) {
            if p + 1 < x.len() && spec_is_whitespace(x[p + 1]) {
                assert(x[p + 1] == s[p + 1].1);
                lemma_spacing_skip(s, p + 1, u, q);
            } else if q + 1 < y.len() && spec_is_whitespace(y[q + 1]) {
                assert(y[q + 1] == u[q + 1].1);
                lemma_spacing_skip(s, p, u, q + 1);
            } else {
                if p + 1 < s.len() {
                    assert(x[p + 1] == s[p + 1].1);
                }
                if q + 1 < u.len() {
                    assert(y[q + 1] == u[q + 1].1);
                }
                assert(scan_whitespace(s, p + 1) == p + 1);
                assert(scan_whitespace(u, q + 1) == q + 1);
            }
        }
    }
}

/// Stepping over `k` characters of a word keeps the texts alike, and the characters
/// stepped over are the same in both.
proof fn lemma_spacing_word(s: Seq<(usize, char)>, a: int, u: Seq<(usize, char)>, b: int, k: int)
    requires
        same_but_spacing_from(chars_of(s), a, chars_of(u), b),
        0 <= k,
        a + k <= word_end(s, a),
    ensures
        same_but_spacing_from(chars_of(s), a + k, chars_of(u), b + k),
        forall|m: int| a <= m < a + k ==> #[trigger] s[m].1 == u[m - a + b].1,
    decreases k,
{
    lemma_spacing_ends(chars_of(s), a, chars_of(u), b);
    lemma_word_end(s, a);
    if k > 0 {
        lemma_spacing_word(s, a, u, b, k - 1);
        let x = chars_of(s);
        let y = chars_of(u);
        assert(x[a + k - 1] == s[a + k - 1].1);
        lemma_spacing_ends(x, a + k - 1, y, b + k - 1);
        assert(y[b + k - 1] == u[b + k - 1].1);
    }
}

/// Alike texts hold the same word at the current positions.
proof fn lemma_spacing_same_word(s: Seq<(usize, char)>, a: int, u: Seq<(usize, char)>, b: int)
    requires
        same_but_spacing_from(chars_of(s), a, chars_of(u), b),
    ensures
        same_word(s, a, u, b, word_end(s, a) - a),
{
    lemma_spacing_ends(chars_of(s), a, chars_of(u), b);
    lemma_word_end(s, a);
    let n = word_end(s, a) - a;
    lemma_spacing_word(s, a, u, b, n);
    lemma_spacing_ends(chars_of(s), a + n, chars_of(u), b + n);
    if a + n < s.len() {
        assert(chars_of(s)[a + n] == s[a + n].1);
        assert(chars_of(u)[b + n] == u[b + n].1);
    }
}

/// Alike texts give lexemes of the same contents, and both reach their end or neither does.
proof fn lemma_lex_from_spacing(s: Seq<(usize, char)>, p: int, u: Seq<(usize, char)>, q: int)
    requires
        same_but_spacing_from(chars_of(s), p, chars_of(u), q),
    ensures
        lexeme_contents(spec_lex_from(s, p).0) == lexeme_contents(spec_lex_from(u, q).0),
        (spec_lex_from(s, p).1 == s.len()) == (spec_lex_from(u, q).1 == u.len()),
    decreases s.len() - p,
{
    lemma_spacing_ends(chars_of(s), p, chars_of(u), q);
    lemma_spacing_skip(s, p, u, q);
    lemma_scan_whitespace(s, p);
    lemma_scan_whitespace(u, q);
    let a = scan_whitespace(s, p);
    let b = scan_whitespace(u, q);
    lemma_spacing_same_word(s, a, u, b);
    lemma_word_end(s, a);
    let n = word_end(s, a) - a;
    lemma_same_word_lexeme(s, a, u, b, n);
    lemma_clean_lexeme_moves(s, p);
    lemma_clean_lexeme_moves(u, q);
    match spec_lexeme(s, a) {
        Some((l, e)) => {
            let (l2, e2) = match spec_lexeme(u, b) {
                Some(r) => r,
                None => (l, e),
            };
            lemma_spacing_word(s, a, u, b, e - a);
            lemma_spacing_skip(s, e, u, e2);
            let p2 = scan_whitespace(s, e);
            let q2 = scan_whitespace(u, e2);
            lemma_lex_from_spacing(s, p2, u, q2);
            let rest = spec_lex_from(s, p2).0;
            let rest2 = spec_lex_from(u, q2).0;
            assert(lexeme_contents(seq![l] + rest) =~= seq![lexeme_content(l)] + lexeme_contents(rest));
            assert(lexeme_contents(seq![l2] + rest2) =~= seq![lexeme_content(l2)] + lexeme_contents(
                rest2,
            ));
        },
        None => {
            assert(lexeme_contents(Seq::<SpecLexeme>::empty()) =~= Seq::<SpecLexeme>::empty());
        },
    }
}

/// Lexing does not see how the words of a text are spaced: two texts that differ at most in
/// their runs of white space (where one has a run, the other has a nonempty run of any white
/// space) both lex or both fail, and their lexemes are of the same kinds with the same
/// values, in the same order; only the positions differ.
pub proof fn lemma_lex_ignores_spacing(x: Seq<char>, y: Seq<char>)
    requires
        same_but_spacing(x, y),
    ensures
        spec_lex(x) is Ok == spec_lex(y) is Ok,
        spec_lex(x) matches Ok(ls) ==> spec_lex(y) matches Ok(ms) && lexeme_contents(ls)
            == lexeme_contents(ms),
{
    let s = spec_char_indices(x);
    let u = spec_char_indices(y);
    assert(chars_of(s) =~= x);
    assert(chars_of(u) =~= y);
    lemma_lex_from_spacing(s, 0, u, 0);
}

} // verus!
