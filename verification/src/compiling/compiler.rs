use vstd::prelude::*;

use crate::data::{
    il_data_view, ils_view, items_view, lemma_il_data_view, CompileError, DefOrExpr, Expr, FnDef,
    Il, IlData, SpecDefOrExpr, SpecExpr, SpecIl, SpecIlData,
};

verus! {

/// The expression uses only what compiles: numbers, colon symbols and tuples of such
/// (no variables, no calls).
pub open spec fn supported(e: SpecExpr) -> bool
    decreases e,
{
    match e {
        SpecExpr::TupleCons { params, .. } => all_exprs_supported(params),
        SpecExpr::Float { .. } => true,
        SpecExpr::Symbol { .. } => true,
        SpecExpr::Var { .. } => false,
        SpecExpr::Call { .. } => false,
    }
}

/// Every expression of `s` is supported.
pub open spec fn all_exprs_supported(s: Seq<SpecExpr>) -> bool
    decreases s,
{
    if s.len() == 0 {
        true
    } else {
        supported(s[0]) && all_exprs_supported(s.subrange(1, s.len() as int))
    }
}

/// Every expression of the items, function bodies included, is supported.
pub open spec fn all_supported(items: Seq<SpecDefOrExpr>) -> bool {
    forall|i: int|
        0 <= i < items.len() ==> match #[trigger] items[i] {
            SpecDefOrExpr::Expr(e) => supported(e),
            SpecDefOrExpr::FnDef(d) => supported(d.body),
        }
}

/// The code of an expression: push each number or symbol; for a tuple, the code of each
/// of its parts in order, then `TupleCons` with their number.
pub open spec fn spec_compile_expr(e: SpecExpr) -> Seq<SpecIl>
    decreases e,
{
    match e {
        SpecExpr::Float { value, .. } => seq![SpecIl::Push(SpecIlData::Float(value))],
        SpecExpr::Symbol { value, .. } => seq![SpecIl::Push(SpecIlData::Symbol(value))],
        SpecExpr::TupleCons { params, .. } => spec_compile_exprs(params).push(
            SpecIl::TupleCons(params.len()),
        ),
        _ => Seq::empty(),
    }
}

/// The code of each expression of `s`, one after the other.
pub open spec fn spec_compile_exprs(s: Seq<SpecExpr>) -> Seq<SpecIl>
    decreases s,
{
    if s.len() == 0 {
        Seq::empty()
    } else {
        spec_compile_expr(s[0]) + spec_compile_exprs(s.subrange(1, s.len() as int))
    }
}

/// Compiling one more expression appends its code.
pub proof fn lemma_compile_exprs_push(s: Seq<SpecExpr>, e: SpecExpr)
    ensures
        spec_compile_exprs(s.push(e)) == spec_compile_exprs(s) + spec_compile_expr(e),
    decreases s.len(),
{
    if s.len() == 0 {
        assert(s.push(e).subrange(1, 1) =~= Seq::<SpecExpr>::empty());
        assert(spec_compile_exprs(Seq::<SpecExpr>::empty()) == Seq::<SpecIl>::empty());
        assert(s =~= Seq::<SpecExpr>::empty());
        assert(spec_compile_exprs(s.push(e)) =~= spec_compile_exprs(s) + spec_compile_expr(e));
    } else {
        let t = s.subrange(1, s.len() as int);
        lemma_compile_exprs_push(t, e);
        assert(s.push(e).subrange(1, s.len() as int + 1) =~= t.push(e));
        assert(spec_compile_exprs(s.push(e)) =~= spec_compile_exprs(s) + spec_compile_expr(e));
    }
}

/// The code of an item: that of an expression; for a definition, push its body's code,
/// push its name, then `Def`.
pub open spec fn spec_compile_item(x: SpecDefOrExpr) -> Seq<SpecIl> {
    match x {
        SpecDefOrExpr::Expr(e) => spec_compile_expr(e),
        SpecDefOrExpr::FnDef(d) => seq![
            SpecIl::Push(SpecIlData::Code(spec_compile_expr(d.body))),
            SpecIl::Push(SpecIlData::String(d.name)),
            SpecIl::Def,
        ],
    }
}

/// The code of a program: the code of each item, in order.
pub open spec fn spec_compile(items: Seq<SpecDefOrExpr>) -> Seq<SpecIl>
    decreases items.len(),
{
    if items.len() == 0 {
        Seq::empty()
    } else {
        spec_compile_item(items[0]) + spec_compile(items.subrange(1, items.len() as int))
    }
}

/// Compiling one more item appends its code.
pub proof fn lemma_compile_push(s: Seq<SpecDefOrExpr>, x: SpecDefOrExpr)
    ensures
        spec_compile(s.push(x)) == spec_compile(s) + spec_compile_item(x),
    decreases s.len(),
{
    if s.len() == 0 {
        assert(s.push(x).subrange(1, 1) =~= Seq::<SpecDefOrExpr>::empty());
        assert(spec_compile(Seq::<SpecDefOrExpr>::empty()) == Seq::<SpecIl>::empty());
        assert(s =~= Seq::<SpecDefOrExpr>::empty());
        assert(spec_compile(s.push(x)) =~= spec_compile(s) + spec_compile_item(x));
    } else {
        let t = s.subrange(1, s.len() as int);
        lemma_compile_push(t, x);
        assert(s.push(x).subrange(1, s.len() as int + 1) =~= t.push(x));
        assert(spec_compile(s.push(x)) =~= spec_compile(s) + spec_compile_item(x));
    }
}

/// Each part of a supported tuple is supported.
proof fn lemma_supported_part(params: Seq<SpecExpr>, l_start: usize, l_end: usize, k: int)
    requires
        supported(SpecExpr::TupleCons { params, l_start, l_end }),
        0 <= k < params.len(),
    ensures
        supported(params[k]),
{
    lemma_all_supported(params, k);
}

/// Each expression of a sequence that is all supported is supported.
pub proof fn lemma_all_supported(s: Seq<SpecExpr>, k: int)
    requires
        all_exprs_supported(s),
        0 <= k < s.len(),
    ensures
        supported(s[k]),
    decreases k,
{
    if k > 0 {
        lemma_all_supported(s.subrange(1, s.len() as int), k - 1);
    }
}

/// Compiles an expression.
pub fn compile_expr(input: &Expr) -> (r: Result<Vec<Il>, CompileError>)
    requires
        supported(input@),
    ensures
        r matches Ok(v) && ils_view(v@) == spec_compile_expr(input@),
    decreases input,
{
    match input {
        Expr::Float { value, .. } => {
            let v = vec![Il::Push(IlData::Float(value.clone()))];
            proof {
                assert(ils_view(v@) =~= spec_compile_expr(input@));
            }
            Ok(v)
        },
        Expr::Symbol { value, .. } => {
            let v = vec![Il::Push(IlData::Symbol(value.clone()))];
            proof {
                assert(ils_view(v@) =~= spec_compile_expr(input@));
            }
            Ok(v)
        },
        Expr::TupleCons { params, .. } => {
            proof {
                crate::data::lemma_expr_view(*input);
            }
            let ghost pv = crate::data::exprs_view(params@);
            let param_count = params.len();
            let mut out: Vec<Il> = Vec::new();
            let mut i: usize = 0;
            #[verifier::loop_isolation(false)]
            while i < param_count
                invariant
                    0 <= i <= param_count,
                    param_count == params.len(),
                    pv == crate::data::exprs_view(params@),
                    supported(input@),
                    input@ == (SpecExpr::TupleCons { params: pv, l_start: input@->TupleCons_l_start, l_end: input@->TupleCons_l_end }),
                    ils_view(out@) == spec_compile_exprs(pv.take(i as int)),
                decreases param_count - i,
            {
                proof {
                    lemma_supported_part(pv, input@->TupleCons_l_start, input@->TupleCons_l_end, i as int);
                }
                let code = match compile_expr(&params[i]) {
                    Ok(c) => c,
                    Err(e) => {
                        return Err(e);
                    },
                };
                let ghost before = out@;
                let mut code = code;
                out.append(&mut code);
                i = i + 1;
                proof {
                    assert(pv.take(i as int) =~= pv.take(i - 1).push(pv[i - 1]));
                    lemma_compile_exprs_push(pv.take(i - 1), pv[i - 1]);
                    assert(ils_view(out@) =~= ils_view(before) + ils_view(out@).skip(before.len() as int));
                }
            }
            out.push(Il::TupleCons(param_count));
            proof {
                assert(pv.take(param_count as int) =~= pv);
            }
            Ok(out)
        },
        Expr::Var { .. } => {
            proof {
                assert(false);
            }
            Ok(Vec::new())
        },
        Expr::Call { .. } => {
            proof {
                assert(false);
            }
            Ok(Vec::new())
        },
    }
}

/// Compiles a function definition: its body's code as a value, its name, then `Def`.
fn compile_fn_def(input: &FnDef) -> (r: Result<Vec<Il>, CompileError>)
    requires
        supported(input.body@),
    ensures
        r matches Ok(v) && ils_view(v@) == spec_compile_item(SpecDefOrExpr::FnDef(input@)),
{
    let expr = match compile_expr(&input.body) {
        Ok(e) => e,
        Err(e) => {
            return Err(e);
        },
    };
    let code = IlData::Code(expr);
    proof {
        lemma_il_data_view(code);
    }
    let v = vec![Il::Push(code), Il::Push(IlData::String(input.name.clone())), Il::Def];
    proof {
        assert(ils_view(v@) =~= spec_compile_item(SpecDefOrExpr::FnDef(input@)));
    }
    Ok(v)
}

/// Compiles a program: the code of each item, in order. Variables and calls are not
/// supported, so `requires` leaves them out; with them left out, compilation never fails.
pub fn compile(input: Vec<DefOrExpr>) -> (r: Result<Vec<Il>, CompileError>)
    requires
        all_supported(items_view(input@)),
    ensures
        r matches Ok(v) && ils_view(v@) == spec_compile(items_view(input@)),
{
    let ghost items = items_view(input@);
    let mut output: Vec<Il> = Vec::new();
    let mut i: usize = 0;
    while i < input.len()
        invariant
            0 <= i <= input.len(),
            items == items_view(input@),
            all_supported(items),
            ils_view(output@) == spec_compile(items.take(i as int)),
        decreases input.len() - i,
    {
        let ghost before = output@;
        assert(match items[i as int] {
            SpecDefOrExpr::Expr(e) => supported(e),
            SpecDefOrExpr::FnDef(d) => supported(d.body),
        });
        let code = match &input[i] {
            DefOrExpr::Expr(e) => compile_expr(e),
            DefOrExpr::FnDef(fd) => compile_fn_def(fd),
        };
        let mut code = match code {
            Ok(c) => c,
            Err(e) => {
                return Err(e);
            },
        };
        output.append(&mut code);
        i = i + 1;
        proof {
            assert(items.take(i as int) =~= items.take(i - 1).push(items[i - 1]));
            lemma_compile_push(items.take(i - 1), items[i - 1]);
            assert(ils_view(output@) =~= ils_view(before) + ils_view(output@).skip(before.len() as int));
        }
    }
    proof {
        assert(items.take(input.len() as int) =~= items);
    }
    Ok(output)
}

/// Whether the expression uses only what compiles (see `supported`).
pub fn is_supported(e: &Expr) -> (r: bool)
    ensures
        r == supported(e@),
    decreases e,
{
    match e {
        Expr::Float { .. } => true,
        Expr::Symbol { .. } => true,
        Expr::Var { .. } => false,
        Expr::Call { .. } => false,
        Expr::TupleCons { params, .. } => {
            proof {
                crate::data::lemma_expr_view(*e);
            }
            let ghost pv = crate::data::exprs_view(params@);
            let mut i: usize = 0;
            proof {
                assert(pv.subrange(0, pv.len() as int) =~= pv);
            }
            #[verifier::loop_isolation(false)]
            while i < params.len()
                invariant
                    0 <= i <= params.len(),
                    pv == crate::data::exprs_view(params@),
                    all_exprs_supported(pv) == all_exprs_supported(pv.subrange(i as int, pv.len() as int)),
                decreases params.len() - i,
            {
                if !is_supported(&params[i]) {
                    proof {
                        lemma_all_supported_split(pv, i as int);
                    }
                    return false;
                }
                proof {
                    lemma_all_supported_split(pv, i as int);
                }
                i = i + 1;
            }
            proof {
                assert(pv.subrange(i as int, pv.len() as int) =~= Seq::<SpecExpr>::empty());
            }
            true
        },
    }
}

/// Whether every expression of the items, function bodies included, is supported.
pub fn items_supported(items: &Vec<DefOrExpr>) -> (r: bool)
    ensures
        r == all_supported(items_view(items@)),
{
    let ghost iv = items_view(items@);
    let mut i: usize = 0;
    while i < items.len()
        invariant
            0 <= i <= items.len(),
            iv == items_view(items@),
            forall|k: int| 0 <= k < i ==> match #[trigger] iv[k] {
                SpecDefOrExpr::Expr(e) => supported(e),
                SpecDefOrExpr::FnDef(d) => supported(d.body),
            },
        decreases items.len() - i,
    {
        let ok = match &items[i] {
            DefOrExpr::Expr(e) => is_supported(e),
            DefOrExpr::FnDef(d) => is_supported(&d.body),
        };
        if !ok {
            proof {
                assert(!(match iv[i as int] {
                    SpecDefOrExpr::Expr(e) => supported(e),
                    SpecDefOrExpr::FnDef(d) => supported(d.body),
                }));
            }
            return false;
        }
        i = i + 1;
    }
    true
}

/// A sequence is all supported when its first element is and the rest is.
proof fn lemma_all_supported_split(s: Seq<SpecExpr>, i: int)
    requires
        0 <= i < s.len(),
    ensures
        all_exprs_supported(s.subrange(i, s.len() as int)) == (supported(s[i])
            && all_exprs_supported(s.subrange(i + 1, s.len() as int))),
{
    let t = s.subrange(i, s.len() as int);
    assert(t.subrange(1, t.len() as int) =~= s.subrange(i + 1, s.len() as int));
}

} // verus!
