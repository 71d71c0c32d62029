use vstd::prelude::*;

use crate::data::{lemma_pat_view, pats_view, Lexeme, ParseError, Pat, SpecLexeme, SpecPat};
use crate::parsing::parser::{
    is_comma, is_l_paren, is_r_paren, parse_comma, parse_l_paren, parse_r_paren, parses,
};
use crate::parsing::stream::LexemeStream;

verus! {

// ----------------------------------------------------------------------------------------
// The grammar of patterns
// ----------------------------------------------------------------------------------------

/// A number lexeme at `p`, as a pattern.
pub open spec fn spec_parse_pat_float(t: Seq<SpecLexeme>, p: int) -> Option<(SpecPat, int)> {
    if 0 <= p < t.len() {
        match t[p] {
            SpecLexeme::Float { value, .. } => Some(
                (SpecPat::Float { value, l_start: p as usize, l_end: p as usize }, p + 1),
            ),
            _ => None,
        }
    } else {
        None
    }
}

/// A colon-symbol lexeme at `p`, as a symbol pattern.
pub open spec fn spec_parse_pat_symbol(t: Seq<SpecLexeme>, p: int) -> Option<(SpecPat, int)> {
    if 0 <= p < t.len() {
        match t[p] {
            SpecLexeme::ColonSymbol { value, .. } => Some(
                (SpecPat::Symbol { value, l_start: p as usize, l_end: p as usize }, p + 1),
            ),
            _ => None,
        }
    } else {
        None
    }
}

/// A symbol lexeme at `p`, as a variable to bind.
pub open spec fn spec_parse_unbound_variable(t: Seq<SpecLexeme>, p: int) -> Option<(SpecPat, int)> {
    if 0 <= p < t.len() {
        match t[p] {
            SpecLexeme::Symbol { value, .. } => Some(
                (SpecPat::UnboundVariable { value, l_start: p as usize, l_end: p as usize }, p + 1),
            ),
            _ => None,
        }
    } else {
        None
    }
}

/// The first that matches at `p` of: a variable, a number, a colon symbol, a tuple.
pub open spec fn spec_parse_pattern(t: Seq<SpecLexeme>, p: int) -> Option<(SpecPat, int)>
    decreases t.len() - p, 2int,
{
    if spec_parse_unbound_variable(t, p) is Some {
        spec_parse_unbound_variable(t, p)
    } else if spec_parse_pat_float(t, p) is Some {
        spec_parse_pat_float(t, p)
    } else if spec_parse_pat_symbol(t, p) is Some {
        spec_parse_pat_symbol(t, p)
    } else {
        spec_parse_pat_tuple(t, p)
    }
}

/// A pattern followed by `,`.
pub open spec fn spec_parse_pat_comma(t: Seq<SpecLexeme>, p: int) -> Option<(SpecPat, int)>
    decreases t.len() - p, 3int,
{
    match spec_parse_pattern(t, p) {
        Some((x, q)) => if is_comma(t, q) {
            Some((x, q + 1))
        } else {
            None
        },
        None => None,
    }
}

/// Patterns each followed by `,`, for as long as one matches.
pub open spec fn spec_parse_pat_commas(t: Seq<SpecLexeme>, p: int) -> (Seq<SpecPat>, int)
    decreases t.len() - p, 4int,
{
    match spec_parse_pat_comma(t, p) {
        Some((x, q)) => if p < q <= t.len() {
            let (rest, r) = spec_parse_pat_commas(t, q);
            (seq![x] + rest, r)
        } else {
            (seq![], p)
        },
        None => (seq![], p),
    }
}

/// `(`, patterns separated by `,` (possibly with a `,` after the last, possibly none), `)`:
/// a tuple pattern, which spans from the `(` to the `)`.
pub open spec fn spec_parse_pat_tuple(t: Seq<SpecLexeme>, p: int) -> Option<(SpecPat, int)>
    decreases t.len() - p, 1int,
{
    if is_l_paren(t, p) {
        let (ps, q) = spec_parse_pat_commas(t, p + 1);
        if p < q <= t.len() {
            let (ps, r) = match spec_parse_pattern(t, q) {
                Some((x, r)) => (ps.push(x), r),
                None => (ps, q),
            };
            if is_r_paren(t, r) {
                Some((SpecPat::Tuple { params: ps, l_start: p as usize, l_end: r as usize }, r + 1))
            } else {
                None
            }
        } else {
            None
        }
    } else {
        None
    }
}

// ----------------------------------------------------------------------------------------
// The pattern parser
// ----------------------------------------------------------------------------------------

/// Reads a number lexeme as a pattern.
fn parse_float<'a>(input: &mut LexemeStream<'a>) -> (r: Result<Pat, ParseError>)
    requires
        old(input).wf(),
    ensures
        parses(
            *old(input),
            *final(input),
            r,
            spec_parse_pat_float(old(input).items(), old(input).pos()),
            |x: Pat| x@,
        ),
{
    let start = input.position();
    match input.next() {
        Some((i, Lexeme::Float { value, .. })) => Ok(
            Pat::Float { value: value.clone(), l_start: i, l_end: i },
        ),
        _ => {
            input.set_position(start);
            Err(ParseError::Error)
        },
    }
}

/// Reads a colon-symbol lexeme as a symbol pattern.
fn parse_symbol<'a>(input: &mut LexemeStream<'a>) -> (r: Result<Pat, ParseError>)
    requires
        old(input).wf(),
    ensures
        parses(
            *old(input),
            *final(input),
            r,
            spec_parse_pat_symbol(old(input).items(), old(input).pos()),
            |x: Pat| x@,
        ),
{
    let start = input.position();
    match input.next() {
        Some((i, Lexeme::ColonSymbol { value, .. })) => Ok(
            Pat::Symbol { value: value.clone(), l_start: i, l_end: i },
        ),
        _ => {
            input.set_position(start);
            Err(ParseError::Error)
        },
    }
}

/// Reads a symbol lexeme as a variable to bind.
fn parse_unbound_variable<'a>(input: &mut LexemeStream<'a>) -> (r: Result<Pat, ParseError>)
    requires
        old(input).wf(),
    ensures
        parses(
            *old(input),
            *final(input),
            r,
            spec_parse_unbound_variable(old(input).items(), old(input).pos()),
            |x: Pat| x@,
        ),
{
    let start = input.position();
    match input.next() {
        Some((i, Lexeme::Symbol { value, .. })) => Ok(
            Pat::UnboundVariable { value: value.clone(), l_start: i, l_end: i },
        ),
        _ => {
            input.set_position(start);
            Err(ParseError::Error)
        },
    }
}

/// Reads a pattern: the first that matches of a variable, a number, a colon symbol and a
/// tuple of patterns. The grammar is `spec_parse_pattern`.
pub fn parse_pattern<'a>(input: &mut LexemeStream<'a>) -> (r: Result<Pat, ParseError>)
    requires
        old(input).wf(),
    ensures
        parses(
            *old(input),
            *final(input),
            r,
            spec_parse_pattern(old(input).items(), old(input).pos()),
            |x: Pat| x@,
        ),
    decreases old(input).items().len() - old(input).pos(), 2int,
{
    match parse_unbound_variable(input) {
        Ok(x) => {
            return Ok(x);
        },
        Err(_) => {},
    }
    match parse_float(input) {
        Ok(x) => {
            return Ok(x);
        },
        Err(_) => {},
    }
    match parse_symbol(input) {
        Ok(x) => {
            return Ok(x);
        },
        Err(_) => {},
    }
    parse_tuple(input)
}

/// Reads a pattern followed by `,`.
fn parse_pat_comma<'a>(input: &mut LexemeStream<'a>) -> (r: Result<Pat, ParseError>)
    requires
        old(input).wf(),
    ensures
        parses(
            *old(input),
            *final(input),
            r,
            spec_parse_pat_comma(old(input).items(), old(input).pos()),
            |x: Pat| x@,
        ),
    decreases old(input).items().len() - old(input).pos(), 3int,
{
    let start = input.position();
    let pat = match parse_pattern(input) {
        Ok(x) => x,
        Err(e) => {
            return Err(e);
        },
    };
    match parse_comma(input) {
        Ok(_) => {},
        Err(_) => {
            input.set_position(start);
            return Err(ParseError::Error);
        },
    }
    Ok(pat)
}

/// Reads a tuple pattern.
fn parse_tuple<'a>(input: &mut LexemeStream<'a>) -> (r: Result<Pat, ParseError>)
    requires
        old(input).wf(),
    ensures
        parses(
            *old(input),
            *final(input),
            r,
            spec_parse_pat_tuple(old(input).items(), old(input).pos()),
            |x: Pat| x@,
        ),
    decreases old(input).items().len() - old(input).pos(), 1int,
{
    let ghost t = input.items();
    let ghost p = input.pos();
    let start = input.position();
    let l_paren = match parse_l_paren(input) {
        Ok(x) => x,
        Err(e) => {
            return Err(e);
        },
    };
    let ghost p1 = input.pos();
    let mut pats: Vec<Pat> = Vec::new();
    loop
        invariant
            input.wf(),
            input.items() == t,
            t == old(input).items(),
            p == old(input).pos(),
            0 <= p < p1 <= input.pos() <= t.len(),
            pats_view(pats@) + spec_parse_pat_commas(t, input.pos()).0 == spec_parse_pat_commas(t, p1).0,
            spec_parse_pat_commas(t, input.pos()).1 == spec_parse_pat_commas(t, p1).1,
        ensures
            input.wf(),
            input.items() == t,
            0 <= p < p1 <= input.pos() <= t.len(),
            pats_view(pats@) == spec_parse_pat_commas(t, p1).0,
            input.pos() == spec_parse_pat_commas(t, p1).1,
        decreases t.len() - input.pos(),
    {
        let ghost before = pats@;
        match parse_pat_comma(input) {
            Ok(x) => {
                pats.push(x);
                proof {
                    assert(pats_view(pats@) =~= pats_view(before).push(x@));
                    assert(pats_view(before).push(x@) + spec_parse_pat_commas(t, input.pos()).0
                        =~= pats_view(before) + (seq![x@] + spec_parse_pat_commas(t, input.pos()).0));
                }
            },
            Err(_) => {
                proof {
                    assert(pats_view(pats@) + Seq::<SpecPat>::empty() =~= pats_view(pats@));
                }
                break ;
            },
        }
    }
    let ghost before = pats@;
    match parse_pattern(input) {
        Ok(last_pat) => {
            pats.push(last_pat);
            proof {
                assert(pats_view(pats@) =~= pats_view(before).push(last_pat@));
            }
        },
        Err(_) => {},
    }
    let r_paren = match parse_r_paren(input) {
        Ok(x) => x,
        Err(_) => {
            input.set_position(start);
            return Err(ParseError::Error);
        },
    };
    let pat = Pat::Tuple { params: pats, l_start: l_paren.0, l_end: r_paren.0 };
    proof {
        lemma_pat_view(pat);
    }
    Ok(pat)
}

} // verus!
