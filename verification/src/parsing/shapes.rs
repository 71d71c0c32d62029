use vstd::prelude::*;

use crate::data::{SpecExpr, SpecLexeme, SpecPat};
use crate::parsing::parser::{
    fold_calls, spec_parse_expr, spec_parse_expr_comma, spec_parse_expr_commas,
    spec_parse_expr_list, spec_parse_float, spec_parse_fn_def, spec_parse_followers,
    spec_parse_ident, spec_parse_ident_comma, spec_parse_ident_commas, spec_parse_leading_expr,
    spec_parse_params_list, spec_parse_symbol, spec_parse_tuple_cons, spec_parse_var,
};
use crate::parsing::pattern_parser::{
    spec_parse_pat_comma, spec_parse_pat_commas, spec_parse_pat_float, spec_parse_pat_symbol,
    spec_parse_pat_tuple, spec_parse_pattern, spec_parse_unbound_variable,
};

verus! {

// ----------------------------------------------------------------------------------------
// Definitions
// ----------------------------------------------------------------------------------------

/// The lexeme of the `i`-th parameter of a definition header that starts at `p`.
pub open spec fn header_param(t: Seq<SpecLexeme>, p: int, i: int) -> SpecLexeme {
    t[p + 3 + 2 * i]
}

/// The lexeme after the `i`-th parameter of a definition header that starts at `p`.
pub open spec fn header_separator(t: Seq<SpecLexeme>, p: int, i: int) -> SpecLexeme {
    t[p + 4 + 2 * i]
}

/// The position of the `)` of a definition header that starts at `p` and has `n` parameters.
pub open spec fn header_close(p: int, n: int) -> int {
    if n == 0 {
        p + 3
    } else {
        p + 2 * n + 2
    }
}

/// The lexemes from `p` are `fn name ( a1 , ... , an )`: the symbol `fn`, the symbol `name`,
/// `(`, the parameter symbols separated by `,`, and `)`.
pub open spec fn is_def_header(t: Seq<SpecLexeme>, p: int, name: Seq<char>, params: Seq<Seq<char>>) -> bool {
    let n = params.len() as int;
    &&& 0 <= p
    &&& header_close(p, n) < t.len()
    &&& t[p] matches SpecLexeme::Symbol { value, .. } && value == seq!['f', 'n']
    &&& t[p + 1] matches SpecLexeme::Symbol { value, .. } && value == name
    &&& t[p + 2] is LParen
    &&& forall|i: int|
        0 <= i < n ==> (#[trigger] header_param(t, p, i) matches SpecLexeme::Symbol { value, .. }
            && value == params[i])
    &&& forall|i: int| 0 <= i < n - 1 ==> #[trigger] header_separator(t, p, i) is Comma
    &&& t[header_close(p, n)] is RParen
}

/// The parameters of a header, but the last, each read with the `,` after it.
proof fn lemma_header_params(t: Seq<SpecLexeme>, p: int, name: Seq<char>, params: Seq<Seq<char>>, j: int)
    requires
        is_def_header(t, p, name, params),
        0 <= j < params.len(),
    ensures
        spec_parse_ident_commas(t, p + 3 + 2 * j) == (
            params.subrange(j, params.len() - 1),
            p + 3 + 2 * (params.len() - 1),
        ),
    decreases params.len() - j,
{
    let n = params.len() as int;
    assert(header_param(t, p, j) == t[p + 3 + 2 * j]);
    if j == n - 1 {
        assert(t[header_close(p, n)] is RParen);
        assert(spec_parse_ident_comma(t, p + 3 + 2 * j) is None);
        assert(params.subrange(j, n - 1) =~= Seq::<Seq<char>>::empty());
    } else {
        assert(header_separator(t, p, j) == t[p + 4 + 2 * j]);
        assert(header_separator(t, p, j) is Comma);
        lemma_header_params(t, p, name, params, j + 1);
        assert(p + 3 + 2 * (j + 1) == p + 3 + 2 * j + 2);
        assert(seq![params[j]] + params.subrange(j + 1, n - 1) =~= params.subrange(j, n - 1));
    }
}

/// The body of a definition is any expression: after a header `fn name(a1, ..., an)`, an
/// expression `e` read by the expression parser and then `;` make a definition named `name`,
/// with parameters `a1` to `an` and body `e`, that ends after the `;`.
pub proof fn lemma_definition_body_is_any_expression(
    t: Seq<SpecLexeme>,
    p: int,
    name: Seq<char>,
    params: Seq<Seq<char>>,
    e: SpecExpr,
    r: int,
)
    requires
        is_def_header(t, p, name, params),
        spec_parse_expr(t, header_close(p, params.len() as int) + 1) == Some((e, r)),
        0 <= r < t.len(),
        t[r] is SemiColon,
    ensures
        spec_parse_fn_def(t, p) matches Some((d, q)) && d.name == name && d.params == params
            && d.body == e && q == r + 1,
{
    let n = params.len() as int;
    if n == 0 {
        assert(spec_parse_ident_comma(t, p + 3) is None);
        assert(spec_parse_ident_commas(t, p + 3) == (Seq::<Seq<char>>::empty(), p + 3));
        assert(spec_parse_ident(t, p + 3) is None);
        assert(params =~= Seq::<Seq<char>>::empty());
    } else {
        lemma_header_params(t, p, name, params, 0);
        let c = p + 3 + 2 * (n - 1);
        assert(header_param(t, p, n - 1) == t[c]);
        assert(header_param(t, p, n - 1) matches SpecLexeme::Symbol { value, .. } && value
            == params[n - 1]);
        assert(params.subrange(0, n - 1).push(params[n - 1]) =~= params);
    }
}

// ----------------------------------------------------------------------------------------
// Tuple patterns
// ----------------------------------------------------------------------------------------

/// Every pattern takes at least one lexeme.
proof fn lemma_pattern_moves(t: Seq<SpecLexeme>, p: int)
    ensures
        spec_parse_pattern(t, p) matches Some((_, q)) ==> p < q <= t.len(),
    decreases t.len() - p, 2int,
{
    if 0 <= p < t.len() && t[p] is LParen {
        lemma_pat_commas_moves(t, p + 1);
        let q = spec_parse_pat_commas(t, p + 1).1;
        if p < q <= t.len() {
            lemma_pattern_moves(t, q);
        }
    }
}

/// Reading patterns each followed by `,` never moves back.
proof fn lemma_pat_commas_moves(t: Seq<SpecLexeme>, p: int)
    ensures
        spec_parse_pat_commas(t, p).1 >= p,
    decreases t.len() - p, 4int,
{
    if 0 <= p <= t.len() {
        if let Some((_, q)) = spec_parse_pat_comma(t, p) {
            if p < q <= t.len() {
                lemma_pat_commas_moves(t, q);
            }
        }
    }
}

/// Where the `i`-th part of a tuple pattern that starts at `p` starts, given where each
/// part ends.
pub open spec fn part_start(p: int, ends: Seq<int>, i: int) -> int {
    if i == 0 {
        p + 1
    } else {
        ends[i - 1] + 1
    }
}

/// Where the `)` of a tuple pattern that starts at `p` stands, given where each part ends.
pub open spec fn tuple_close(p: int, ends: Seq<int>) -> int {
    if ends.len() == 0 {
        p + 1
    } else {
        ends.last()
    }
}

/// The lexemes from `p` are `(`, then patterns `xs` separated by `,`, then `)`: the `i`-th
/// pattern is what the pattern parser reads at its place, and it ends at `ends[i]`, where the
/// next `,` (or, after the last, the `)`) stands.
pub open spec fn is_tuple_of(t: Seq<SpecLexeme>, p: int, xs: Seq<SpecPat>, ends: Seq<int>) -> bool {
    &&& 0 <= p < t.len()
    &&& t[p] is LParen
    &&& xs.len() == ends.len()
    &&& forall|i: int|
        0 <= i < xs.len() ==> spec_parse_pattern(t, part_start(p, ends, i)) == Some(
            (#[trigger] xs[i], ends[i]),
        )
    &&& forall|i: int| 0 <= i < xs.len() - 1 ==> 0 <= #[trigger] ends[i] < t.len() && t[ends[i]] is Comma
    &&& 0 <= tuple_close(p, ends) < t.len()
    &&& t[tuple_close(p, ends)] is RParen
}

/// The parts of a tuple pattern, but the last, each read with the `,` after it.
proof fn lemma_tuple_parts(t: Seq<SpecLexeme>, p: int, xs: Seq<SpecPat>, ends: Seq<int>, j: int)
    requires
        is_tuple_of(t, p, xs, ends),
        0 <= j < xs.len(),
    ensures
        spec_parse_pat_commas(t, part_start(p, ends, j)) == (
            xs.subrange(j, xs.len() - 1),
            part_start(p, ends, xs.len() - 1),
        ),
    decreases xs.len() - j,
{
    let n = xs.len() as int;
    let st = part_start(p, ends, j);
    assert(spec_parse_pattern(t, st) == Some((xs[j], ends[j])));
    lemma_pattern_moves(t, st);
    if j == n - 1 {
        assert(spec_parse_pat_comma(t, st) is None);
        assert(xs.subrange(j, n - 1) =~= Seq::<SpecPat>::empty());
    } else {
        assert(0 <= ends[j] < t.len() && t[ends[j]] is Comma);
        assert(spec_parse_pat_comma(t, st) == Some((xs[j], ends[j] + 1)));
        lemma_tuple_parts(t, p, xs, ends, j + 1);
        assert(part_start(p, ends, j + 1) == ends[j] + 1);
        assert(seq![xs[j]] + xs.subrange(j + 1, n - 1) =~= xs.subrange(j, n - 1));
    }
}

/// A tuple pattern keeps every pattern between its parentheses: `(x1, ..., xn)` reads as the
/// tuple pattern whose parameters are exactly `x1` to `xn`, in order, spanning from the `(`
/// to the `)`.
pub proof fn lemma_tuple_pattern_keeps_every_part(t: Seq<SpecLexeme>, p: int, xs: Seq<SpecPat>, ends: Seq<int>)
    requires
        is_tuple_of(t, p, xs, ends),
    ensures
        spec_parse_pattern(t, p) == Some(
            (
                SpecPat::Tuple {
                    params: xs,
                    l_start: p as usize,
                    l_end: tuple_close(p, ends) as usize,
                },
                tuple_close(p, ends) + 1,
            ),
        ),
{
    let n = xs.len() as int;
    assert(spec_parse_unbound_variable(t, p) is None);
    assert(spec_parse_pat_float(t, p) is None);
    assert(spec_parse_pat_symbol(t, p) is None);
    lemma_pat_commas_moves(t, p + 1);
    if n == 0 {
        assert(spec_parse_pattern(t, p + 1) is None);
        assert(spec_parse_pat_comma(t, p + 1) is None);
        assert(xs =~= Seq::<SpecPat>::empty());
    } else {
        lemma_tuple_parts(t, p, xs, ends, 0);
        let st = part_start(p, ends, n - 1);
        assert(spec_parse_pattern(t, st) == Some((xs[n - 1], ends[n - 1])));
        if n > 1 {
            assert(0 <= ends[n - 2] < t.len());
        }
        assert(xs.subrange(0, n - 1).push(xs[n - 1]) =~= xs);
    }
    assert(spec_parse_pat_tuple(t, p) == Some(
        (
            SpecPat::Tuple { params: xs, l_start: p as usize, l_end: tuple_close(p, ends) as usize },
            tuple_close(p, ends) + 1,
        ),
    ));
}

// ----------------------------------------------------------------------------------------
// Tuples and calls
// ----------------------------------------------------------------------------------------

/// Reading argument lists never moves back.
proof fn lemma_followers_moves(t: Seq<SpecLexeme>, p: int)
    ensures
        spec_parse_followers(t, p).1 >= p,
    decreases t.len() - p,
{
    if let Some((_, q)) = spec_parse_params_list(t, p) {
        if p < q <= t.len() {
            lemma_followers_moves(t, q);
        }
    }
}

/// Every expression takes at least one lexeme.
proof fn lemma_expr_moves(t: Seq<SpecLexeme>, p: int)
    ensures
        spec_parse_expr(t, p) matches Some((_, r)) ==> p < r,
{
    if let Some((_, q)) = spec_parse_leading_expr(t, p) {
        if p < q <= t.len() {
            lemma_followers_moves(t, q);
        }
    }
}

/// Reading expressions each followed by `,` never moves back.
proof fn lemma_expr_commas_moves(t: Seq<SpecLexeme>, p: int)
    ensures
        spec_parse_expr_commas(t, p).1 >= p,
    decreases t.len() - p,
{
    if let Some((_, q)) = spec_parse_expr_comma(t, p) {
        if p < q <= t.len() {
            lemma_expr_commas_moves(t, q);
        }
    }
}

/// The lexemes from `p` are `(`, then expressions `xs` separated by `,`, then `)`: the `i`-th
/// expression is what the expression parser reads at its place, and it ends at `ends[i]`,
/// where the next `,` (or, after the last, the `)`) stands.
pub open spec fn is_expr_list_of(t: Seq<SpecLexeme>, p: int, xs: Seq<SpecExpr>, ends: Seq<int>) -> bool {
    &&& 0 <= p < t.len()
    &&& t[p] is LParen
    &&& xs.len() == ends.len()
    &&& forall|i: int|
        0 <= i < xs.len() ==> spec_parse_expr(t, part_start(p, ends, i)) == Some(
            (#[trigger] xs[i], ends[i]),
        )
    &&& forall|i: int| 0 <= i < xs.len() - 1 ==> 0 <= #[trigger] ends[i] < t.len() && t[ends[i]] is Comma
    &&& 0 <= tuple_close(p, ends) < t.len()
    &&& t[tuple_close(p, ends)] is RParen
}

/// The expressions of a list, but the last, each read with the `,` after it.
proof fn lemma_expr_list_parts(t: Seq<SpecLexeme>, p: int, xs: Seq<SpecExpr>, ends: Seq<int>, j: int)
    requires
        is_expr_list_of(t, p, xs, ends),
        0 <= j < xs.len(),
    ensures
        spec_parse_expr_commas(t, part_start(p, ends, j)) == (
            xs.subrange(j, xs.len() - 1),
            part_start(p, ends, xs.len() - 1),
        ),
    decreases xs.len() - j,
{
    let n = xs.len() as int;
    let st = part_start(p, ends, j);
    assert(spec_parse_expr(t, st) == Some((xs[j], ends[j])));
    lemma_expr_moves(t, st);
    if j == n - 1 {
        assert(spec_parse_expr_comma(t, st) is None);
        assert(xs.subrange(j, n - 1) =~= Seq::<SpecExpr>::empty());
    } else {
        assert(0 <= ends[j] < t.len() && t[ends[j]] is Comma);
        assert(spec_parse_expr_comma(t, st) == Some((xs[j], ends[j] + 1)));
        lemma_expr_list_parts(t, p, xs, ends, j + 1);
        assert(part_start(p, ends, j + 1) == ends[j] + 1);
        assert(seq![xs[j]] + xs.subrange(j + 1, n - 1) =~= xs.subrange(j, n - 1));
    }
}

/// A parenthesised list of expressions reads as exactly those expressions, up to its `)`.
proof fn lemma_expr_list(t: Seq<SpecLexeme>, p: int, xs: Seq<SpecExpr>, ends: Seq<int>)
    requires
        is_expr_list_of(t, p, xs, ends),
    ensures
        spec_parse_expr_list(t, p + 1) == (xs, tuple_close(p, ends)),
        spec_parse_params_list(t, p) == Some((xs, tuple_close(p, ends) + 1)),
{
    let n = xs.len() as int;
    lemma_expr_commas_moves(t, p + 1);
    if n == 0 {
        assert(spec_parse_leading_expr(t, p + 1) is None);
        assert(spec_parse_expr(t, p + 1) is None);
        assert(spec_parse_expr_comma(t, p + 1) is None);
        assert(xs =~= Seq::<SpecExpr>::empty());
    } else {
        lemma_expr_list_parts(t, p, xs, ends, 0);
        let st = part_start(p, ends, n - 1);
        assert(spec_parse_expr(t, st) == Some((xs[n - 1], ends[n - 1])));
        if n > 1 {
            assert(0 <= ends[n - 2] < t.len());
        }
        assert(xs.subrange(0, n - 1).push(xs[n - 1]) =~= xs);
    }
}

/// A tuple expression keeps every expression between its parentheses: `(e1, ..., en)`, not
/// followed by an argument list, reads as the tuple whose parts are exactly `e1` to `en`, in
/// order, spanning from the `(` to the `)`.
pub proof fn lemma_tuple_expression_keeps_every_part(t: Seq<SpecLexeme>, p: int, xs: Seq<SpecExpr>, ends: Seq<int>)
    requires
        is_expr_list_of(t, p, xs, ends),
        !(tuple_close(p, ends) + 1 < t.len() && t[tuple_close(p, ends) + 1] is LParen),
    ensures
        spec_parse_expr(t, p) == Some(
            (
                SpecExpr::TupleCons {
                    params: xs,
                    l_start: p as usize,
                    l_end: tuple_close(p, ends) as usize,
                },
                tuple_close(p, ends) + 1,
            ),
        ),
{
    let c = tuple_close(p, ends);
    lemma_expr_list(t, p, xs, ends);
    lemma_expr_list_moves(t, p + 1);
    let e = SpecExpr::TupleCons { params: xs, l_start: p as usize, l_end: c as usize };
    assert(spec_parse_float(t, p) is None);
    assert(spec_parse_symbol(t, p) is None);
    assert(spec_parse_tuple_cons(t, p) == Some((e, c + 1)));
    assert(spec_parse_leading_expr(t, p) == Some((e, c + 1)));
    assert(spec_parse_params_list(t, c + 1) is None);
    assert(spec_parse_followers(t, c + 1) == (Seq::<Seq<SpecExpr>>::empty(), c + 1));
    assert(fold_calls(e, Seq::<Seq<SpecExpr>>::empty()) == e);
}

/// An argument list after a leading expression makes a call: if the leading expression `f`
/// read at `p` is followed by `(a1, ..., an)`, and no second argument list follows, the
/// expression read at `p` is the call of `f` with arguments exactly `a1` to `an`, ending after
/// the `)`.
pub proof fn lemma_argument_list_makes_a_call(
    t: Seq<SpecLexeme>,
    p: int,
    f: SpecExpr,
    q: int,
    xs: Seq<SpecExpr>,
    ends: Seq<int>,
)
    requires
        spec_parse_leading_expr(t, p) == Some((f, q)),
        is_expr_list_of(t, q, xs, ends),
        !(tuple_close(q, ends) + 1 < t.len() && t[tuple_close(q, ends) + 1] is LParen),
    ensures
        spec_parse_expr(t, p) matches Some((SpecExpr::Call { fn_expr, params, .. }, r)) && *fn_expr
            == f && params == xs && r == tuple_close(q, ends) + 1,
{
    let c = tuple_close(q, ends);
    lemma_expr_list(t, q, xs, ends);
    lemma_expr_list_moves(t, q + 1);
    lemma_leading_moves(t, p);
    assert(spec_parse_params_list(t, c + 1) is None);
    assert(spec_parse_followers(t, c + 1) == (Seq::<Seq<SpecExpr>>::empty(), c + 1));
    assert(seq![xs] + Seq::<Seq<SpecExpr>>::empty() =~= seq![xs]);
    assert(spec_parse_followers(t, q) == (seq![xs], c + 1));
    assert(seq![xs].drop_first() =~= Seq::<Seq<SpecExpr>>::empty());
    let call = SpecExpr::Call { fn_expr: Box::new(f), params: xs, l_start: 0, l_end: 0 };
    assert(fold_calls(call, Seq::<Seq<SpecExpr>>::empty()) == call);
    assert(fold_calls(f, seq![xs]) == call);
}

/// A leading expression takes at least one lexeme.
proof fn lemma_leading_moves(t: Seq<SpecLexeme>, p: int)
    ensures
        spec_parse_leading_expr(t, p) matches Some((_, q)) ==> p < q,
{
    lemma_expr_list_moves(t, p + 1);
}

/// Reading a list of expressions never moves back.
proof fn lemma_expr_list_moves(t: Seq<SpecLexeme>, p: int)
    ensures
        spec_parse_expr_list(t, p).1 >= p,
{
    lemma_expr_commas_moves(t, p);
    lemma_expr_moves(t, spec_parse_expr_commas(t, p).1);
}

// ----------------------------------------------------------------------------------------
// Single lexemes
// ----------------------------------------------------------------------------------------

/// A single lexeme read as a pattern: a symbol is a variable to bind, a number a number
/// pattern, a colon symbol a symbol pattern; each takes that one lexeme and records its
/// position.
pub proof fn lemma_single_lexeme_patterns(t: Seq<SpecLexeme>, p: int)
    requires
        0 <= p < t.len(),
    ensures
        t[p] matches SpecLexeme::Symbol { value, .. } ==> spec_parse_pattern(t, p) == Some(
            (SpecPat::UnboundVariable { value, l_start: p as usize, l_end: p as usize }, p + 1),
        ),
        t[p] matches SpecLexeme::Float { value, .. } ==> spec_parse_pattern(t, p) == Some(
            (SpecPat::Float { value, l_start: p as usize, l_end: p as usize }, p + 1),
        ),
        t[p] matches SpecLexeme::ColonSymbol { value, .. } ==> spec_parse_pattern(t, p) == Some(
            (SpecPat::Symbol { value, l_start: p as usize, l_end: p as usize }, p + 1),
        ),
{
}

/// A single lexeme read as an expression, when no argument list follows it: a number is a
/// number, a colon symbol a symbol, a symbol a variable; each takes that one lexeme and
/// records its position.
pub proof fn lemma_single_lexeme_expressions(t: Seq<SpecLexeme>, p: int)
    requires
        0 <= p < t.len(),
        !(p + 1 < t.len() && t[p + 1] is LParen),
    ensures
        t[p] matches SpecLexeme::Float { value, .. } ==> spec_parse_expr(t, p) == Some(
            (SpecExpr::Float { value, l_start: p as usize, l_end: p as usize }, p + 1),
        ),
        t[p] matches SpecLexeme::ColonSymbol { value, .. } ==> spec_parse_expr(t, p) == Some(
            (SpecExpr::Symbol { value, l_start: p as usize, l_end: p as usize }, p + 1),
        ),
        t[p] matches SpecLexeme::Symbol { value, .. } ==> spec_parse_expr(t, p) == Some(
            (SpecExpr::Var { value, l_start: p as usize, l_end: p as usize }, p + 1),
        ),
{
    assert(spec_parse_params_list(t, p + 1) is None);
    assert(spec_parse_followers(t, p + 1) == (Seq::<Seq<SpecExpr>>::empty(), p + 1));
}

} // verus!
