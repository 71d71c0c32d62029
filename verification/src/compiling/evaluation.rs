use vstd::prelude::*;

use crate::compiling::compiler::{
    all_exprs_supported, all_supported, spec_compile, spec_compile_expr, spec_compile_exprs, spec_compile_item,
    supported,
};
use crate::data::{SpecDefOrExpr, SpecExpr, SpecFnDef, SpecIl, SpecIlData};
use crate::vm::{printed, spec_run, spec_step};

verus! {

/// The value of an expression of numbers, colon symbols and tuples: the same tree, as data.
pub open spec fn spec_eval(e: SpecExpr) -> SpecIlData
    decreases e,
{
    match e {
        SpecExpr::Float { value, .. } => SpecIlData::Float(value),
        SpecExpr::Symbol { value, .. } => SpecIlData::Symbol(value),
        SpecExpr::TupleCons { params, .. } => SpecIlData::Tuple(spec_evals(params)),
        _ => SpecIlData::Tuple(Seq::empty()),
    }
}

/// The values of the expressions of `s`, in order.
pub open spec fn spec_evals(s: Seq<SpecExpr>) -> Seq<SpecIlData>
    decreases s,
{
    if s.len() == 0 {
        Seq::empty()
    } else {
        seq![spec_eval(s[0])] + spec_evals(s.subrange(1, s.len() as int))
    }
}

/// Running `a` then `b`.
pub open spec fn run_then(stack: Seq<SpecIlData>, a: Seq<SpecIl>, b: Seq<SpecIl>) -> Option<
    (Seq<SpecIlData>, Seq<SpecIlData>),
> {
    match spec_run(stack, a) {
        Some((s1, o1)) => match spec_run(s1, b) {
            Some((s2, o2)) => Some((s2, o1 + o2)),
            None => None,
        },
        None => None,
    }
}

/// Running two pieces of code one after the other is running them joined.
pub proof fn lemma_run_concat(stack: Seq<SpecIlData>, a: Seq<SpecIl>, b: Seq<SpecIl>)
    ensures
        spec_run(stack, a + b) == run_then(stack, a, b),
    decreases a.len(),
{
    if a.len() == 0 {
        assert(a + b =~= b);
        if let Some((s2, o2)) = spec_run(stack, b) {
            assert(Seq::<SpecIlData>::empty() + o2 =~= o2);
        }
    } else {
        let rest = a.subrange(1, a.len() as int);
        assert((a + b)[0] == a[0]);
        assert((a + b).subrange(1, (a + b).len() as int) =~= rest + b);
        if let Some((next, out)) = spec_step(stack, a[0]) {
            lemma_run_concat(next, rest, b);
            if let Some((s1, o1)) = spec_run(next, rest) {
                if let Some((s2, o2)) = spec_run(s1, b) {
                    assert(printed(out) + (o1 + o2) =~= (printed(out) + o1) + o2);
                }
            }
        }
    }
}

/// Running the code of supported expressions pushes their values, in order, and prints
/// nothing; then the rest runs from there.
pub proof fn lemma_run_compiled_exprs(stack: Seq<SpecIlData>, s: Seq<SpecExpr>, rest: Seq<SpecIl>)
    requires
        all_exprs_supported(s),
    ensures
        spec_run(stack, spec_compile_exprs(s) + rest) == spec_run(stack + spec_evals(s), rest),
    decreases s,
{
    if s.len() == 0 {
        assert(spec_compile_exprs(s) + rest =~= rest);
        assert(stack + spec_evals(s) =~= stack);
    } else {
        let t = s.subrange(1, s.len() as int);
        assert(spec_compile_exprs(s) + rest =~= spec_compile_expr(s[0]) + (spec_compile_exprs(t) + rest));
        lemma_run_compiled_expr(stack, s[0], spec_compile_exprs(t) + rest);
        lemma_run_compiled_exprs(stack.push(spec_eval(s[0])), t, rest);
        assert(stack.push(spec_eval(s[0])) + spec_evals(t) =~= stack + spec_evals(s));
    }
}

/// Running the code of a supported expression pushes its value and prints nothing; then
/// the rest runs from there.
pub proof fn lemma_run_compiled_expr(stack: Seq<SpecIlData>, e: SpecExpr, rest: Seq<SpecIl>)
    requires
        supported(e),
    ensures
        spec_run(stack, spec_compile_expr(e) + rest) == spec_run(stack.push(spec_eval(e)), rest),
    decreases e,
{
    match e {
        SpecExpr::TupleCons { params, .. } => {
            let n = params.len();
            let code = spec_compile_exprs(params);
            let tc = seq![SpecIl::TupleCons(n)];
            assert(spec_compile_expr(e) + rest =~= code + (tc + rest));
            lemma_run_compiled_exprs(stack, params, tc + rest);
            let st = stack + spec_evals(params);
            lemma_evals_len(params);
            assert((tc + rest)[0] == SpecIl::TupleCons(n));
            assert((tc + rest).subrange(1, (tc + rest).len() as int) =~= rest);
            assert(st.take(st.len() - n) =~= stack);
            assert(st.skip(st.len() - n) =~= spec_evals(params));
            if let Some((s2, o2)) = spec_run(stack.push(spec_eval(e)), rest) {
                assert(printed(None) + o2 =~= o2);
            }
        },
        _ => {
            let i = spec_compile_expr(e)[0];
            assert((spec_compile_expr(e) + rest)[0] == i);
            assert((spec_compile_expr(e) + rest).subrange(1, (spec_compile_expr(e) + rest).len() as int) =~= rest);
            if let Some((s2, o2)) = spec_run(stack.push(spec_eval(e)), rest) {
                assert(printed(None) + o2 =~= o2);
            }
        },
    }
}

/// There is one value per expression.
pub proof fn lemma_evals_len(s: Seq<SpecExpr>)
    ensures
        spec_evals(s).len() == s.len(),
    decreases s.len(),
{
    if s.len() > 0 {
        lemma_evals_len(s.subrange(1, s.len() as int));
    }
}

/// The expressions of items that are all expressions.
pub open spec fn item_exprs(items: Seq<SpecDefOrExpr>) -> Seq<SpecExpr> {
    items.map_values(
        |x: SpecDefOrExpr|
            match x {
                SpecDefOrExpr::Expr(e) => e,
                SpecDefOrExpr::FnDef(d) => d.body,
            },
    )
}

/// Every item is an expression (no definitions).
pub open spec fn only_exprs(items: Seq<SpecDefOrExpr>) -> bool {
    forall|i: int| 0 <= i < items.len() ==> #[trigger] items[i] is Expr
}

/// Running the code of a program of supported expressions pushes the value of each, in
/// order, and prints nothing.
pub proof fn lemma_run_compiled_program(stack: Seq<SpecIlData>, items: Seq<SpecDefOrExpr>)
    requires
        all_supported(items),
        only_exprs(items),
    ensures
        spec_run(stack, spec_compile(items)) == Some(
            (stack + spec_evals(item_exprs(items)), Seq::<SpecIlData>::empty()),
        ),
    decreases items.len(),
{
    if items.len() == 0 {
        assert(stack + spec_evals(item_exprs(items)) =~= stack);
    } else {
        let t = items.subrange(1, items.len() as int);
        let e = item_exprs(items)[0];
        assert(items[0] is Expr);
        assert(match items[0] {
            SpecDefOrExpr::Expr(e) => supported(e),
            SpecDefOrExpr::FnDef(d) => supported(d.body),
        });
        assert(spec_compile_item(items[0]) == spec_compile_expr(e));
        assert forall|i: int| 0 <= i < t.len() implies #[trigger] t[i] is Expr by {
            assert(t[i] == items[i + 1]);
        }
        assert forall|i: int| 0 <= i < t.len() implies match #[trigger] t[i] {
            SpecDefOrExpr::Expr(e) => supported(e),
            SpecDefOrExpr::FnDef(d) => supported(d.body),
        } by {
            assert(t[i] == items[i + 1]);
        }
        lemma_run_compiled_expr(stack, e, spec_compile(t));
        lemma_run_compiled_program(stack.push(spec_eval(e)), t);
        assert(item_exprs(t) =~= item_exprs(items).subrange(1, items.len() as int));
        assert(stack.push(spec_eval(e)) + spec_evals(item_exprs(t)) =~= stack + spec_evals(item_exprs(items)));
    }
}

/// Running the code of a supported expression, then `Print`, from an empty stack prints the
/// value of the expression, once, and leaves the stack empty.
pub proof fn lemma_print_compiled_expr(e: SpecExpr)
    requires
        supported(e),
    ensures
        spec_run(Seq::empty(), spec_compile_expr(e).push(SpecIl::Print)) == Some(
            (Seq::<SpecIlData>::empty(), seq![spec_eval(e)]),
        ),
{
    let print = seq![SpecIl::Print];
    assert(spec_compile_expr(e).push(SpecIl::Print) =~= spec_compile_expr(e) + print);
    lemma_run_compiled_expr(Seq::empty(), e, print);
    let st = Seq::<SpecIlData>::empty().push(spec_eval(e));
    assert(st.drop_last() =~= Seq::<SpecIlData>::empty());
    assert(print.subrange(1, 1) =~= Seq::<SpecIl>::empty());
    assert(printed(Some(spec_eval(e))) + Seq::<SpecIlData>::empty() =~= seq![spec_eval(e)]);
    assert(spec_step(st, SpecIl::Print) == Some((Seq::<SpecIlData>::empty(), Some(spec_eval(e)))));
    assert(spec_run(Seq::<SpecIlData>::empty(), Seq::<SpecIl>::empty()) == Some(
        (Seq::<SpecIlData>::empty(), Seq::<SpecIlData>::empty()),
    ));
    assert(spec_run(st, print) == Some((Seq::<SpecIlData>::empty(), seq![spec_eval(e)])));
}

/// The code a definition carries is the code of its body as an expression: the definition
/// compiles to pushing a piece of code, pushing its name, and `Def`, and that piece of code,
/// run from an empty stack, prints nothing and leaves exactly the value of the body.
pub proof fn lemma_definition_code_runs_to_body_value(d: SpecFnDef)
    requires
        supported(d.body),
    ensures
        spec_compile_item(SpecDefOrExpr::FnDef(d)).len() == 3,
        spec_compile_item(SpecDefOrExpr::FnDef(d))[0] matches SpecIl::Push(SpecIlData::Code(c))
            && spec_run(Seq::empty(), c) == Some(
            (seq![spec_eval(d.body)], Seq::<SpecIlData>::empty()),
        ),
        spec_compile_item(SpecDefOrExpr::FnDef(d))[1] == SpecIl::Push(SpecIlData::String(d.name)),
        spec_compile_item(SpecDefOrExpr::FnDef(d))[2] == SpecIl::Def,
{
    let c = spec_compile_expr(d.body);
    lemma_run_compiled_expr(Seq::empty(), d.body, Seq::empty());
    assert(c + Seq::<SpecIl>::empty() =~= c);
    assert(Seq::<SpecIlData>::empty().push(spec_eval(d.body)) =~= seq![spec_eval(d.body)]);
}

} // verus!
