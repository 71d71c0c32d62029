use vstd::prelude::*;

use crate::data::{
    lemma_expr_view, exprs_view, items_view, DefOrExpr, Expr, FnDef, Lexeme, ParseError, SpecDefOrExpr, SpecExpr,
    SpecFnDef, SpecLexeme, strings_view,
};
use crate::parsing::stream::LexemeStream;

verus! {

// ----------------------------------------------------------------------------------------
// The grammar of expressions and definitions
// ----------------------------------------------------------------------------------------

/// A number lexeme at `p`, as an expression.
pub open spec fn spec_parse_float(t: Seq<SpecLexeme>, p: int) -> Option<(SpecExpr, int)> {
    if 0 <= p < t.len() {
        match t[p] {
            SpecLexeme::Float { value, .. } => Some(
                (SpecExpr::Float { value, l_start: p as usize, l_end: p as usize }, p + 1),
            ),
            _ => None,
        }
    } else {
        None
    }
}

/// A colon-symbol lexeme at `p`, as a symbol expression.
pub open spec fn spec_parse_symbol(t: Seq<SpecLexeme>, p: int) -> Option<(SpecExpr, int)> {
    if 0 <= p < t.len() {
        match t[p] {
            SpecLexeme::ColonSymbol { value, .. } => Some(
                (SpecExpr::Symbol { value, l_start: p as usize, l_end: p as usize }, p + 1),
            ),
            _ => None,
        }
    } else {
        None
    }
}

/// A symbol lexeme at `p`, as a variable.
pub open spec fn spec_parse_var(t: Seq<SpecLexeme>, p: int) -> Option<(SpecExpr, int)> {
    if 0 <= p < t.len() {
        match t[p] {
            SpecLexeme::Symbol { value, .. } => Some(
                (SpecExpr::Var { value, l_start: p as usize, l_end: p as usize }, p + 1),
            ),
            _ => None,
        }
    } else {
        None
    }
}

/// A symbol lexeme at `p`: its position and its text.
pub open spec fn spec_parse_ident(t: Seq<SpecLexeme>, p: int) -> Option<((usize, Seq<char>), int)> {
    if 0 <= p < t.len() {
        match t[p] {
            SpecLexeme::Symbol { value, .. } => Some(((p as usize, value), p + 1)),
            _ => None,
        }
    } else {
        None
    }
}

pub open spec fn is_comma(t: Seq<SpecLexeme>, p: int) -> bool {
    0 <= p < t.len() && t[p] is Comma
}

pub open spec fn is_l_paren(t: Seq<SpecLexeme>, p: int) -> bool {
    0 <= p < t.len() && t[p] is LParen
}

pub open spec fn is_r_paren(t: Seq<SpecLexeme>, p: int) -> bool {
    0 <= p < t.len() && t[p] is RParen
}

pub open spec fn is_semi_colon(t: Seq<SpecLexeme>, p: int) -> bool {
    0 <= p < t.len() && t[p] is SemiColon
}

/// `e` applied to each argument list of `fs` in turn.
pub open spec fn fold_calls(e: SpecExpr, fs: Seq<Seq<SpecExpr>>) -> SpecExpr
    decreases fs.len(),
{
    if fs.len() == 0 {
        e
    } else {
        fold_calls(
            SpecExpr::Call { fn_expr: Box::new(e), params: fs[0], l_start: 0, l_end: 0 },
            fs.drop_first(),
        )
    }
}

/// An expression from `p`: a leading expression, then any number of argument lists.
pub open spec fn spec_parse_expr(t: Seq<SpecLexeme>, p: int) -> Option<(SpecExpr, int)>
    decreases t.len() - p, 4int,
{
    match spec_parse_leading_expr(t, p) {
        Some((e, q)) => if p < q <= t.len() {
            let (fs, r) = spec_parse_followers(t, q);
            Some((fold_calls(e, fs), r))
        } else {
            None
        },
        None => None,
    }
}

/// The first that matches at `p` of: a number, a colon symbol, a tuple, a variable.
pub open spec fn spec_parse_leading_expr(t: Seq<SpecLexeme>, p: int) -> Option<(SpecExpr, int)>
    decreases t.len() - p, 2int,
{
    if spec_parse_float(t, p) is Some {
        spec_parse_float(t, p)
    } else if spec_parse_symbol(t, p) is Some {
        spec_parse_symbol(t, p)
    } else if spec_parse_tuple_cons(t, p) is Some {
        spec_parse_tuple_cons(t, p)
    } else {
        spec_parse_var(t, p)
    }
}

/// `(`, a list of expressions, `)`: a tuple, which spans from the `(` to the `)`.
pub open spec fn spec_parse_tuple_cons(t: Seq<SpecLexeme>, p: int) -> Option<(SpecExpr, int)>
    decreases t.len() - p, 1int,
{
    if is_l_paren(t, p) {
        let (es, q) = spec_parse_expr_list(t, p + 1);
        if is_r_paren(t, q) {
            Some((SpecExpr::TupleCons { params: es, l_start: p as usize, l_end: q as usize }, q + 1))
        } else {
            None
        }
    } else {
        None
    }
}

/// `(`, a list of expressions, `)`: the arguments of a call.
pub open spec fn spec_parse_params_list(t: Seq<SpecLexeme>, p: int) -> Option<(Seq<SpecExpr>, int)>
    decreases t.len() - p, 1int,
{
    if is_l_paren(t, p) {
        let (es, q) = spec_parse_expr_list(t, p + 1);
        if is_r_paren(t, q) {
            Some((es, q + 1))
        } else {
            None
        }
    } else {
        None
    }
}

/// Argument lists, one after the other, for as long as one matches.
pub open spec fn spec_parse_followers(t: Seq<SpecLexeme>, p: int) -> (Seq<Seq<SpecExpr>>, int)
    decreases t.len() - p, 3int,
{
    match spec_parse_params_list(t, p) {
        Some((ps, q)) => if p < q <= t.len() {
            let (rest, r) = spec_parse_followers(t, q);
            (seq![ps] + rest, r)
        } else {
            (seq![], p)
        },
        None => (seq![], p),
    }
}

/// An expression followed by `,`.
pub open spec fn spec_parse_expr_comma(t: Seq<SpecLexeme>, p: int) -> Option<(SpecExpr, int)>
    decreases t.len() - p, 5int,
{
    match spec_parse_expr(t, p) {
        Some((e, q)) => if is_comma(t, q) {
            Some((e, q + 1))
        } else {
            None
        },
        None => None,
    }
}

/// Expressions each followed by `,`, for as long as one matches.
pub open spec fn spec_parse_expr_commas(t: Seq<SpecLexeme>, p: int) -> (Seq<SpecExpr>, int)
    decreases t.len() - p, 6int,
{
    match spec_parse_expr_comma(t, p) {
        Some((e, q)) => if p < q <= t.len() {
            let (rest, r) = spec_parse_expr_commas(t, q);
            (seq![e] + rest, r)
        } else {
            (seq![], p)
        },
        None => (seq![], p),
    }
}

/// A list of expressions separated by `,`, possibly with a `,` after the last; possibly empty.
pub open spec fn spec_parse_expr_list(t: Seq<SpecLexeme>, p: int) -> (Seq<SpecExpr>, int)
    decreases t.len() - p, 7int,
{
    let (es, q) = spec_parse_expr_commas(t, p);
    if p <= q <= t.len() {
        match spec_parse_expr(t, q) {
            Some((e, r)) => (es.push(e), r),
            None => (es, q),
        }
    } else {
        (es, q)
    }
}

/// A symbol followed by `,`.
pub open spec fn spec_parse_ident_comma(t: Seq<SpecLexeme>, p: int) -> Option<((usize, Seq<char>), int)> {
    match spec_parse_ident(t, p) {
        Some((x, q)) => if is_comma(t, q) {
            Some((x, q + 1))
        } else {
            None
        },
        None => None,
    }
}

/// Symbols each followed by `,`, for as long as one matches: their texts.
pub open spec fn spec_parse_ident_commas(t: Seq<SpecLexeme>, p: int) -> (Seq<Seq<char>>, int)
    decreases t.len() - p,
{
    match spec_parse_ident_comma(t, p) {
        Some(((_, v), q)) => if p < q <= t.len() {
            let (rest, r) = spec_parse_ident_commas(t, q);
            (seq![v] + rest, r)
        } else {
            (seq![], p)
        },
        None => (seq![], p),
    }
}

/// `fn name(a, b, ...) body;`. The parameter list is like an expression list, of symbols.
pub open spec fn spec_parse_fn_def(t: Seq<SpecLexeme>, p: int) -> Option<(SpecFnDef, int)> {
    match spec_parse_ident(t, p) {
        Some(((_, kw), p1)) => if kw == seq!['f', 'n'] {
            match spec_parse_ident(t, p1) {
                Some(((_, name), p2)) => if is_l_paren(t, p2) {
                    let (params, p3) = spec_parse_ident_commas(t, p2 + 1);
                    let (params, p4) = match spec_parse_ident(t, p3) {
                        Some(((_, v), q)) => (params.push(v), q),
                        None => (params, p3),
                    };
                    if is_r_paren(t, p4) {
                        match spec_parse_expr(t, p4 + 1) {
                            Some((body, p5)) => if is_semi_colon(t, p5) {
                                Some(
                                    (
                                        SpecFnDef { name, params, body, l_start: 0, l_end: 0 },
                                        p5 + 1,
                                    ),
                                )
                            } else {
                                None
                            },
                            None => None,
                        }
                    } else {
                        None
                    }
                } else {
                    None
                },
                None => None,
            }
        } else {
            None
        },
        None => None,
    }
}

/// A definition if one matches at `p`, else an expression.
pub open spec fn spec_parse_def_or_expr(t: Seq<SpecLexeme>, p: int) -> Option<(SpecDefOrExpr, int)> {
    match spec_parse_fn_def(t, p) {
        Some((d, q)) => Some((SpecDefOrExpr::FnDef(d), q)),
        None => match spec_parse_expr(t, p) {
            Some((e, q)) => Some((SpecDefOrExpr::Expr(e), q)),
            None => None,
        },
    }
}

/// Definitions and expressions, one after the other, for as long as one matches.
pub open spec fn spec_parse_from(t: Seq<SpecLexeme>, p: int) -> (Seq<SpecDefOrExpr>, int)
    decreases t.len() - p,
{
    match spec_parse_def_or_expr(t, p) {
        Some((x, q)) => if p < q <= t.len() {
            let (rest, r) = spec_parse_from(t, q);
            (seq![x] + rest, r)
        } else {
            (seq![], p)
        },
        None => (seq![], p),
    }
}

// ----------------------------------------------------------------------------------------
// The parser
// ----------------------------------------------------------------------------------------

/// What a reader of one item promises: on a match, the stream has moved forward to where
/// the grammar says; on no match, it is where it was and the error is `Error`.
pub open spec fn parses<'a, T, V>(
    before: LexemeStream<'a>,
    after: LexemeStream<'a>,
    r: Result<T, ParseError>,
    expected: Option<(V, int)>,
    view: spec_fn(T) -> V,
) -> bool {
    &&& after.wf()
    &&& after.items() == before.items()
    &&& match expected {
        Some((v, q)) => r matches Ok(x) && view(x) == v && after.pos() == q && before.pos()
            < q,
        None => r == Err::<T, ParseError>(ParseError::Error) && after.pos() == before.pos(),
    }
}

/// Reads a number lexeme as an expression.
fn parse_float<'a>(input: &mut LexemeStream<'a>) -> (r: Result<Expr, ParseError>)
    requires
        old(input).wf(),
    ensures
        parses(
            *old(input),
            *final(input),
            r,
            spec_parse_float(old(input).items(), old(input).pos()),
            |e: Expr| e@,
        ),
{
    let start = input.position();
    match input.next() {
        Some((i, Lexeme::Float { value, .. })) => Ok(
            Expr::Float { value: value.clone(), l_start: i, l_end: i },
        ),
        _ => {
            input.set_position(start);
            Err(ParseError::Error)
        },
    }
}

/// Reads a colon-symbol lexeme as a symbol expression.
fn parse_symbol<'a>(input: &mut LexemeStream<'a>) -> (r: Result<Expr, ParseError>)
    requires
        old(input).wf(),
    ensures
        parses(
            *old(input),
            *final(input),
            r,
            spec_parse_symbol(old(input).items(), old(input).pos()),
            |e: Expr| e@,
        ),
{
    let start = input.position();
    match input.next() {
        Some((i, Lexeme::ColonSymbol { value, .. })) => Ok(
            Expr::Symbol { value: value.clone(), l_start: i, l_end: i },
        ),
        _ => {
            input.set_position(start);
            Err(ParseError::Error)
        },
    }
}

/// Reads a symbol lexeme as a variable.
fn parse_var<'a>(input: &mut LexemeStream<'a>) -> (r: Result<Expr, ParseError>)
    requires
        old(input).wf(),
    ensures
        parses(
            *old(input),
            *final(input),
            r,
            spec_parse_var(old(input).items(), old(input).pos()),
            |e: Expr| e@,
        ),
{
    let start = input.position();
    match input.next() {
        Some((i, Lexeme::Symbol { value, .. })) => Ok(
            Expr::Var { value: value.clone(), l_start: i, l_end: i },
        ),
        _ => {
            input.set_position(start);
            Err(ParseError::Error)
        },
    }
}

/// Reads a symbol lexeme: its position and its text.
fn parse_ident<'a>(input: &mut LexemeStream<'a>) -> (r: Result<(usize, String), ParseError>)
    requires
        old(input).wf(),
    ensures
        parses(
            *old(input),
            *final(input),
            r,
            spec_parse_ident(old(input).items(), old(input).pos()),
            |x: (usize, String)| (x.0, x.1@),
        ),
{
    let start = input.position();
    match input.next() {
        Some((i, Lexeme::Symbol { value, .. })) => Ok((i, value.clone())),
        _ => {
            input.set_position(start);
            Err(ParseError::Error)
        },
    }
}

/// Reads a `,`.
pub(crate) fn parse_comma<'a>(input: &mut LexemeStream<'a>) -> (r: Result<(usize, &'a Lexeme), ParseError>)
    requires
        old(input).wf(),
    ensures
        parses(
            *old(input),
            *final(input),
            r,
            if is_comma(old(input).items(), old(input).pos()) {
                Some((old(input).pos() as usize, old(input).pos() + 1))
            } else {
                None
            },
            |x: (usize, &'a Lexeme)| x.0,
        ),
{
    let start = input.position();
    match input.next() {
        Some(x) => match x.1 {
            Lexeme::Comma { .. } => Ok(x),
            _ => {
                input.set_position(start);
                Err(ParseError::Error)
            },
        },
        None => Err(ParseError::Error),
    }
}

/// Reads a `(`.
pub(crate) fn parse_l_paren<'a>(input: &mut LexemeStream<'a>) -> (r: Result<(usize, &'a Lexeme), ParseError>)
    requires
        old(input).wf(),
    ensures
        parses(
            *old(input),
            *final(input),
            r,
            if is_l_paren(old(input).items(), old(input).pos()) {
                Some((old(input).pos() as usize, old(input).pos() + 1))
            } else {
                None
            },
            |x: (usize, &'a Lexeme)| x.0,
        ),
{
    let start = input.position();
    match input.next() {
        Some(x) => match x.1 {
            Lexeme::LParen { .. } => Ok(x),
            _ => {
                input.set_position(start);
                Err(ParseError::Error)
            },
        },
        None => Err(ParseError::Error),
    }
}

/// Reads a `)`.
pub(crate) fn parse_r_paren<'a>(input: &mut LexemeStream<'a>) -> (r: Result<(usize, &'a Lexeme), ParseError>)
    requires
        old(input).wf(),
    ensures
        parses(
            *old(input),
            *final(input),
            r,
            if is_r_paren(old(input).items(), old(input).pos()) {
                Some((old(input).pos() as usize, old(input).pos() + 1))
            } else {
                None
            },
            |x: (usize, &'a Lexeme)| x.0,
        ),
{
    let start = input.position();
    match input.next() {
        Some(x) => match x.1 {
            Lexeme::RParen { .. } => Ok(x),
            _ => {
                input.set_position(start);
                Err(ParseError::Error)
            },
        },
        None => Err(ParseError::Error),
    }
}

/// Reads a `;`.
fn parse_semi_colon<'a>(input: &mut LexemeStream<'a>) -> (r: Result<(usize, &'a Lexeme), ParseError>)
    requires
        old(input).wf(),
    ensures
        parses(
            *old(input),
            *final(input),
            r,
            if is_semi_colon(old(input).items(), old(input).pos()) {
                Some((old(input).pos() as usize, old(input).pos() + 1))
            } else {
                None
            },
            |x: (usize, &'a Lexeme)| x.0,
        ),
{
    let start = input.position();
    match input.next() {
        Some(x) => match x.1 {
            Lexeme::SemiColon { .. } => Ok(x),
            _ => {
                input.set_position(start);
                Err(ParseError::Error)
            },
        },
        None => Err(ParseError::Error),
    }
}

/// What follows a leading expression: the arguments of a call.
enum Follower {
    ParamList(Vec<Expr>),
}

spec fn follower_view(f: Follower) -> Seq<SpecExpr> {
    match f {
        Follower::ParamList(ps) => exprs_view(ps@),
    }
}

spec fn followers_view(s: Seq<Follower>) -> Seq<Seq<SpecExpr>> {
    s.map_values(|f: Follower| follower_view(f))
}

/// Reads an expression: a leading expression, then any number of argument lists, each of
/// which makes a call of what came before.
pub fn parse_expr<'a>(input: &mut LexemeStream<'a>) -> (r: Result<Expr, ParseError>)
    requires
        old(input).wf(),
    ensures
        parses(
            *old(input),
            *final(input),
            r,
            spec_parse_expr(old(input).items(), old(input).pos()),
            |e: Expr| e@,
        ),
    decreases old(input).items().len() - old(input).pos(), 4int,
{
    let ghost t = input.items();
    let ghost p = input.pos();
    let fn_expr = match parse_leading_expr(input) {
        Ok(e) => e,
        Err(e) => {
            return Err(e);
        },
    };
    let ghost q = input.pos();
    let ghost lead = fn_expr@;
    let mut followers: Vec<Follower> = Vec::new();
    loop
        invariant
            input.wf(),
            input.items() == t,
            t == old(input).items(),
            p == old(input).pos(),
            0 <= p < q <= input.pos() <= t.len(),
            followers_view(followers@) + spec_parse_followers(t, input.pos()).0
                == spec_parse_followers(t, q).0,
            spec_parse_followers(t, input.pos()).1 == spec_parse_followers(t, q).1,
        ensures
            input.wf(),
            input.items() == t,
            0 <= p < q <= input.pos() <= t.len(),
            followers_view(followers@) == spec_parse_followers(t, q).0,
            input.pos() == spec_parse_followers(t, q).1,
        decreases t.len() - input.pos(),
    {
        let ghost before = followers@;
        match parse_follower(input) {
            Ok(f) => {
                followers.push(f);
                proof {
                    assert(followers_view(followers@) =~= followers_view(before).push(follower_view(f)));
                    assert(followers_view(before).push(follower_view(f)) + spec_parse_followers(t, input.pos()).0
                        =~= followers_view(before) + (seq![follower_view(f)] + spec_parse_followers(t, input.pos()).0));
                }
            },
            Err(_) => {
                proof {
                    assert(followers_view(followers@) + Seq::<Seq<SpecExpr>>::empty() =~= followers_view(followers@));
                }
                break ;
            },
        }
    }
    let mut e = fn_expr;
    while followers.len() > 0
        invariant
            fold_calls(e@, followers_view(followers@)) == fold_calls(lead, spec_parse_followers(t, q).0),
        decreases followers.len(),
    {
        let ghost rest = followers@;
        let f = followers.remove(0);
        match f {
            Follower::ParamList(params) => {
                let ghost prev = e@;
                e = Expr::Call { fn_expr: Box::new(e), params, l_start: 0, l_end: 0 };
                proof {
                    assert(followers_view(rest).drop_first() =~= followers_view(followers@));
                    lemma_expr_view(e);
                }
            },
        }
    }
    proof {
        assert(followers_view(followers@) =~= Seq::<Seq<SpecExpr>>::empty());
    }
    Ok(e)
}

/// Reads the first that matches of: a number, a colon symbol, a tuple, a variable.
fn parse_leading_expr<'a>(input: &mut LexemeStream<'a>) -> (r: Result<Expr, ParseError>)
    requires
        old(input).wf(),
    ensures
        parses(
            *old(input),
            *final(input),
            r,
            spec_parse_leading_expr(old(input).items(), old(input).pos()),
            |e: Expr| e@,
        ),
    decreases old(input).items().len() - old(input).pos(), 2int,
{
    match parse_float(input) {
        Ok(e) => {
            return Ok(e);
        },
        Err(_) => {},
    }
    match parse_symbol(input) {
        Ok(e) => {
            return Ok(e);
        },
        Err(_) => {},
    }
    match parse_tuple_cons(input) {
        Ok(e) => {
            return Ok(e);
        },
        Err(_) => {},
    }
    parse_var(input)
}

/// Reads argument lists after a leading expression.
fn parse_follower<'a>(input: &mut LexemeStream<'a>) -> (r: Result<Follower, ParseError>)
    requires
        old(input).wf(),
    ensures
        parses(
            *old(input),
            *final(input),
            r,
            spec_parse_params_list(old(input).items(), old(input).pos()),
            |f: Follower| follower_view(f),
        ),
    decreases old(input).items().len() - old(input).pos(), 2int,
{
    parse_params_list(input)
}

/// Reads `(`, a list of expressions and `)`: the arguments of a call.
fn parse_params_list<'a>(input: &mut LexemeStream<'a>) -> (r: Result<Follower, ParseError>)
    requires
        old(input).wf(),
    ensures
        parses(
            *old(input),
            *final(input),
            r,
            spec_parse_params_list(old(input).items(), old(input).pos()),
            |f: Follower| follower_view(f),
        ),
    decreases old(input).items().len() - old(input).pos(), 1int,
{
    let start = input.position();
    match parse_l_paren(input) {
        Ok(_) => {},
        Err(e) => {
            return Err(e);
        },
    }
    let exprs = parse_expr_list(input);
    match parse_r_paren(input) {
        Ok(_) => {},
        Err(_) => {
            input.set_position(start);
            return Err(ParseError::Error);
        },
    }
    Ok(Follower::ParamList(exprs))
}

/// Reads `(`, a list of expressions and `)`: a tuple.
pub fn parse_tuple_cons<'a>(input: &mut LexemeStream<'a>) -> (r: Result<Expr, ParseError>)
    requires
        old(input).wf(),
    ensures
        parses(
            *old(input),
            *final(input),
            r,
            spec_parse_tuple_cons(old(input).items(), old(input).pos()),
            |e: Expr| e@,
        ),
    decreases old(input).items().len() - old(input).pos(), 1int,
{
    let start = input.position();
    let l_paren = match parse_l_paren(input) {
        Ok(x) => x,
        Err(e) => {
            return Err(e);
        },
    };
    let exprs = parse_expr_list(input);
    let r_paren = match parse_r_paren(input) {
        Ok(x) => x,
        Err(_) => {
            input.set_position(start);
            return Err(ParseError::Error);
        },
    };
    let e = Expr::TupleCons { params: exprs, l_start: l_paren.0, l_end: r_paren.0 };
    proof {
        lemma_expr_view(e);
    }
    Ok(e)
}

/// Reads an expression followed by `,`.
fn parse_expr_comma<'a>(input: &mut LexemeStream<'a>) -> (r: Result<Expr, ParseError>)
    requires
        old(input).wf(),
    ensures
        parses(
            *old(input),
            *final(input),
            r,
            spec_parse_expr_comma(old(input).items(), old(input).pos()),
            |e: Expr| e@,
        ),
    decreases old(input).items().len() - old(input).pos(), 5int,
{
    let start = input.position();
    let expr = match parse_expr(input) {
        Ok(e) => e,
        Err(e) => {
            return Err(e);
        },
    };
    match parse_comma(input) {
        Ok(_) => {},
        Err(_) => {
            input.set_position(start);
            return Err(ParseError::Error);
        },
    }
    Ok(expr)
}

/// Reads a list of expressions separated by `,`, possibly with a `,` after the last;
/// possibly empty. Never fails.
pub fn parse_expr_list<'a>(input: &mut LexemeStream<'a>) -> (r: Vec<Expr>)
    requires
        old(input).wf(),
    ensures
        final(input).wf(),
        final(input).items() == old(input).items(),
        old(input).pos() <= final(input).pos(),
        exprs_view(r@) == spec_parse_expr_list(old(input).items(), old(input).pos()).0,
        final(input).pos() == spec_parse_expr_list(old(input).items(), old(input).pos()).1,
    decreases old(input).items().len() - old(input).pos(), 7int,
{
    let ghost t = input.items();
    let ghost p = input.pos();
    let mut exprs: Vec<Expr> = Vec::new();
    loop
        invariant
            input.wf(),
            input.items() == t,
            t == old(input).items(),
            p == old(input).pos(),
            0 <= p <= input.pos() <= t.len(),
            exprs_view(exprs@) + spec_parse_expr_commas(t, input.pos()).0
                == spec_parse_expr_commas(t, p).0,
            spec_parse_expr_commas(t, input.pos()).1 == spec_parse_expr_commas(t, p).1,
        ensures
            input.wf(),
            input.items() == t,
            0 <= p <= input.pos() <= t.len(),
            exprs_view(exprs@) == spec_parse_expr_commas(t, p).0,
            input.pos() == spec_parse_expr_commas(t, p).1,
        decreases t.len() - input.pos(),
    {
        let ghost before = exprs@;
        match parse_expr_comma(input) {
            Ok(e) => {
                exprs.push(e);
                proof {
                    assert(exprs_view(exprs@) =~= exprs_view(before).push(e@));
                    assert(exprs_view(before).push(e@) + spec_parse_expr_commas(t, input.pos()).0
                        =~= exprs_view(before) + (seq![e@] + spec_parse_expr_commas(t, input.pos()).0));
                }
            },
            Err(_) => {
                proof {
                    assert(exprs_view(exprs@) + Seq::<SpecExpr>::empty() =~= exprs_view(exprs@));
                }
                break ;
            },
        }
    }
    let ghost before = exprs@;
    match parse_expr(input) {
        Ok(last_expr) => {
            exprs.push(last_expr);
            proof {
                assert(exprs_view(exprs@) =~= exprs_view(before).push(last_expr@));
            }
        },
        Err(_) => {},
    }
    exprs
}

/// Reads a symbol followed by `,`.
fn parse_ident_comma<'a>(input: &mut LexemeStream<'a>) -> (r: Result<(usize, String), ParseError>)
    requires
        old(input).wf(),
    ensures
        parses(
            *old(input),
            *final(input),
            r,
            spec_parse_ident_comma(old(input).items(), old(input).pos()),
            |x: (usize, String)| (x.0, x.1@),
        ),
{
    let start = input.position();
    let ident = match parse_ident(input) {
        Ok(x) => x,
        Err(e) => {
            return Err(e);
        },
    };
    match parse_comma(input) {
        Ok(_) => {},
        Err(_) => {
            input.set_position(start);
            return Err(ParseError::Error);
        },
    }
    Ok(ident)
}

/// Whether `s` is the keyword `fn`.
fn is_fn_keyword(s: &String) -> (r: bool)
    ensures
        r == (s@ == seq!['f', 'n']),
{
    let text = s.as_str();
    if text.unicode_len() == 2 {
        let r = text.get_char(0) == 'f' && text.get_char(1) == 'n';
        proof {
            if r {
                assert(s@ =~= seq!['f', 'n']);
            }
        }
        r
    } else {
        false
    }
}

/// Reads a function definition `fn name(a, b, ...) body;`.
pub fn parse_fn_def<'a>(input: &mut LexemeStream<'a>) -> (r: Result<FnDef, ParseError>)
    requires
        old(input).wf(),
    ensures
        parses(
            *old(input),
            *final(input),
            r,
            spec_parse_fn_def(old(input).items(), old(input).pos()),
            |d: FnDef| d@,
        ),
{
    let ghost t = input.items();
    let ghost p = input.pos();
    let start = input.position();
    let fn_sym = match parse_ident(input) {
        Ok(x) => x,
        Err(e) => {
            return Err(e);
        },
    };
    if !is_fn_keyword(&fn_sym.1) {
        input.set_position(start);
        return Err(ParseError::Error);
    }
    let name = match parse_ident(input) {
        Ok(x) => x,
        Err(_) => {
            input.set_position(start);
            return Err(ParseError::Error);
        },
    };
    match parse_l_paren(input) {
        Ok(_) => {},
        Err(_) => {
            input.set_position(start);
            return Err(ParseError::Error);
        },
    }
    let ghost p3 = input.pos();
    let mut params: Vec<(usize, String)> = Vec::new();
    loop
        invariant
            input.wf(),
            input.items() == t,
            0 <= p < p3 <= input.pos() <= t.len(),
            params@.map_values(|x: (usize, String)| x.1@) + spec_parse_ident_commas(t, input.pos()).0
                == spec_parse_ident_commas(t, p3).0,
            spec_parse_ident_commas(t, input.pos()).1 == spec_parse_ident_commas(t, p3).1,
        ensures
            input.wf(),
            input.items() == t,
            0 <= p < p3 <= input.pos() <= t.len(),
            params@.map_values(|x: (usize, String)| x.1@) == spec_parse_ident_commas(t, p3).0,
            input.pos() == spec_parse_ident_commas(t, p3).1,
        decreases t.len() - input.pos(),
    {
        let ghost before = params@;
        match parse_ident_comma(input) {
            Ok(x) => {
                params.push(x);
                proof {
                    let f = |x: (usize, String)| x.1@;
                    assert(params@.map_values(f) =~= before.map_values(f).push(x.1@));
                    assert(before.map_values(f).push(x.1@) + spec_parse_ident_commas(t, input.pos()).0
                        =~= before.map_values(f) + (seq![x.1@] + spec_parse_ident_commas(t, input.pos()).0));
                }
            },
            Err(_) => {
                proof {
                    let f = |x: (usize, String)| x.1@;
                    assert(params@.map_values(f) + Seq::<Seq<char>>::empty() =~= params@.map_values(f));
                }
                break ;
            },
        }
    }
    let ghost before = params@;
    match parse_ident(input) {
        Ok(last_param) => {
            params.push(last_param);
            proof {
                let f = |x: (usize, String)| x.1@;
                assert(params@.map_values(f) =~= before.map_values(f).push(last_param.1@));
            }
        },
        Err(_) => {},
    }
    match parse_r_paren(input) {
        Ok(_) => {},
        Err(_) => {
            input.set_position(start);
            return Err(ParseError::Error);
        },
    }
    let expr = match parse_expr(input) {
        Ok(e) => e,
        Err(_) => {
            input.set_position(start);
            return Err(ParseError::Error);
        },
    };
    match parse_semi_colon(input) {
        Ok(_) => {},
        Err(_) => {
            input.set_position(start);
            return Err(ParseError::Error);
        },
    }
    let mut names: Vec<String> = Vec::new();
    let mut i: usize = 0;
    while i < params.len()
        invariant
            0 <= i <= params.len(),
            strings_view(names@) == params@.take(i as int).map_values(|x: (usize, String)| x.1@),
        decreases params.len() - i,
    {
        let ghost before_names = names@;
        let name_i = params[i].1.clone();
        names.push(name_i);
        i = i + 1;
        proof {
            let f = |x: (usize, String)| x.1@;
            assert(params@.take(i as int).map_values(f) =~= params@.take(i - 1).map_values(f).push(
                params@[i - 1].1@,
            ));
            assert(strings_view(names@) =~= strings_view(before_names).push(name_i@));
        }
    }
    proof {
        assert(params@.take(params.len() as int) =~= params@);
    }
    Ok(FnDef { name: name.1, params: names, body: expr, l_start: 0, l_end: 0 })
}

/// Reads an expression as a top-level item.
fn w_parse_expr<'a>(input: &mut LexemeStream<'a>) -> (r: Result<DefOrExpr, ParseError>)
    requires
        old(input).wf(),
    ensures
        parses(
            *old(input),
            *final(input),
            r,
            match spec_parse_expr(old(input).items(), old(input).pos()) {
                Some((e, q)) => Some((SpecDefOrExpr::Expr(e), q)),
                None => None,
            },
            |x: DefOrExpr| x@,
        ),
{
    match parse_expr(input) {
        Ok(expr) => Ok(DefOrExpr::Expr(expr)),
        Err(e) => Err(e),
    }
}

/// Reads a function definition as a top-level item.
fn w_parse_fn_def<'a>(input: &mut LexemeStream<'a>) -> (r: Result<DefOrExpr, ParseError>)
    requires
        old(input).wf(),
    ensures
        parses(
            *old(input),
            *final(input),
            r,
            match spec_parse_fn_def(old(input).items(), old(input).pos()) {
                Some((d, q)) => Some((SpecDefOrExpr::FnDef(d), q)),
                None => None,
            },
            |x: DefOrExpr| x@,
        ),
{
    match parse_fn_def(input) {
        Ok(fn_def) => Ok(DefOrExpr::FnDef(fn_def)),
        Err(e) => Err(e),
    }
}

/// Reads a function definition if one stands here, else an expression.
fn parse_def_or_expr<'a>(input: &mut LexemeStream<'a>) -> (r: Result<DefOrExpr, ParseError>)
    requires
        old(input).wf(),
    ensures
        parses(
            *old(input),
            *final(input),
            r,
            spec_parse_def_or_expr(old(input).items(), old(input).pos()),
            |x: DefOrExpr| x@,
        ),
{
    match w_parse_fn_def(input) {
        Ok(x) => {
            return Ok(x);
        },
        Err(_) => {},
    }
    w_parse_expr(input)
}

/// Reads function definitions and expressions, one after the other, for as long as one
/// matches; the stream is left after the last one read. Never fails: where nothing matches,
/// it returns what it has read. The grammar is `spec_parse_from`.
pub fn parse<'a>(input: &mut LexemeStream<'a>) -> (r: Result<Vec<DefOrExpr>, ParseError>)
    requires
        old(input).wf(),
    ensures
        final(input).wf(),
        final(input).items() == old(input).items(),
        r matches Ok(v) && items_view(v@) == spec_parse_from(old(input).items(), old(input).pos()).0,
        final(input).pos() == spec_parse_from(old(input).items(), old(input).pos()).1,
{
    let ghost t = input.items();
    let ghost p = input.pos();
    let mut defs_and_exprs: Vec<DefOrExpr> = Vec::new();
    loop
        invariant
            input.wf(),
            input.items() == t,
            0 <= p <= input.pos() <= t.len(),
            items_view(defs_and_exprs@) + spec_parse_from(t, input.pos()).0 == spec_parse_from(t, p).0,
            spec_parse_from(t, input.pos()).1 == spec_parse_from(t, p).1,
        ensures
            input.wf(),
            input.items() == t,
            items_view(defs_and_exprs@) == spec_parse_from(t, p).0,
            input.pos() == spec_parse_from(t, p).1,
        decreases t.len() - input.pos(),
    {
        let ghost before = defs_and_exprs@;
        match parse_def_or_expr(input) {
            Ok(x) => {
                defs_and_exprs.push(x);
                proof {
                    assert(items_view(defs_and_exprs@) =~= items_view(before).push(x@));
                    assert(items_view(before).push(x@) + spec_parse_from(t, input.pos()).0
                        =~= items_view(before) + (seq![x@] + spec_parse_from(t, input.pos()).0));
                }
            },
            Err(_) => {
                proof {
                    assert(items_view(defs_and_exprs@) + Seq::<SpecDefOrExpr>::empty() =~= items_view(defs_and_exprs@));
                }
                break ;
            },
        }
    }
    Ok(defs_and_exprs)
}

} // verus!
