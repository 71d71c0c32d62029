use tuple_lang::compiling::compiler::{compile, compile_expr};
use tuple_lang::data::{DefOrExpr, Expr, Il, IlData};
use tuple_lang::parsing::lexer::lex;
use tuple_lang::parsing::parser::parse;
use tuple_lang::parsing::stream::LexemeStream;
use tuple_lang::vm::{can_step, execute, step, ExeEnv};

fn program(text: &str) -> Vec<DefOrExpr> {
    let ls = lex(text).unwrap();
    let mut ls = LexemeStream::new(&ls);
    parse(&mut ls).unwrap()
}

fn is_float(d: &IlData, expected: &str) -> bool {
    matches!(d, IlData::Float(v) if v == expected)
}

#[test]
fn compiled_tuple_pushes_parts_then_builds() {
    let il = compile(program("(1, :a, (2))")).unwrap();
    assert_eq!(il.len(), 5);
    assert!(matches!(&il[0], Il::Push(d) if is_float(d, "1")));
    assert!(matches!(&il[1], Il::Push(IlData::Symbol(s)) if s == "a"));
    assert!(matches!(&il[2], Il::Push(d) if is_float(d, "2")));
    assert!(matches!(il[3], Il::TupleCons(1)));
    assert!(matches!(il[4], Il::TupleCons(3)));
}

#[test]
fn compiled_definition_pushes_code_and_name() {
    let il = compile(program("fn f(a) :x;")).unwrap();
    assert_eq!(il.len(), 3);
    match &il[0] {
        Il::Push(IlData::Code(code)) => {
            assert_eq!(code.len(), 1);
            assert!(matches!(&code[0], Il::Push(IlData::Symbol(s)) if s == "x"));
        }
        _ => assert!(false),
    }
    assert!(matches!(&il[1], Il::Push(IlData::String(s)) if s == "f"));
    assert!(matches!(il[2], Il::Def));
}

#[test]
fn running_compiled_expressions_leaves_their_values() {
    let il = compile(program("(1, :a, (2)) 3")).unwrap();
    let (env, printed) = execute(il);
    assert_eq!(printed.len(), 0);
    assert_eq!(env.def_stack.len(), 0);
    assert_eq!(env.data_stack.len(), 2);
    match &env.data_stack[0] {
        IlData::Tuple(parts) => {
            assert_eq!(parts.len(), 3);
            assert!(is_float(&parts[0], "1"));
            assert!(matches!(&parts[1], IlData::Symbol(s) if s == "a"));
            assert!(matches!(&parts[2], IlData::Tuple(inner) if inner.len() == 1 && is_float(&inner[0], "2")));
        }
        _ => assert!(false),
    }
    assert!(is_float(&env.data_stack[1], "3"));
}

#[test]
fn print_pops_and_returns_the_top() {
    let il = vec![
        Il::Push(IlData::Float("1".to_string())),
        Il::Push(IlData::Symbol("b".to_string())),
        Il::Print,
        Il::TupleCons(1),
    ];
    let (env, printed) = execute(il);
    assert_eq!(printed.len(), 1);
    assert!(matches!(&printed[0], IlData::Symbol(s) if s == "b"));
    assert_eq!(env.data_stack.len(), 1);
    assert!(matches!(&env.data_stack[0], IlData::Tuple(p) if p.len() == 1 && is_float(&p[0], "1")));
}

#[test]
fn empty_tuple_takes_nothing() {
    let (env, _) = execute(vec![Il::Push(IlData::Float("7".to_string())), Il::TupleCons(0)]);
    assert_eq!(env.data_stack.len(), 2);
    assert!(matches!(&env.data_stack[1], IlData::Tuple(p) if p.is_empty()));
}

#[test]
fn steps_that_cannot_run_are_refused() {
    let mut env = ExeEnv::new();
    assert!(!can_step(&env, &Il::Print));
    assert!(!can_step(&env, &Il::TupleCons(1)));
    assert!(!can_step(&env, &Il::Def));
    assert!(!can_step(&env, &Il::Match));
    assert!(can_step(&env, &Il::TupleCons(0)));
    let push = Il::Push(IlData::String("s".to_string()));
    assert!(can_step(&env, &push));
    assert!(step(&mut env, push).is_none());
    assert!(can_step(&env, &Il::Print));
    assert!(can_step(&env, &Il::TupleCons(1)));
    assert!(!can_step(&env, &Il::TupleCons(2)));
    let out = step(&mut env, Il::Print);
    assert!(matches!(out, Some(IlData::String(s)) if s == "s"));
    assert_eq!(env.data_stack.len(), 0);
}

#[test]
fn running_joined_code_is_running_one_then_the_other() {
    let first = || vec![Il::Push(IlData::Float("1".to_string())), Il::Push(IlData::Float("2".to_string()))];
    let second = || vec![Il::TupleCons(2), Il::Print];
    let mut joined = first();
    joined.extend(second());
    let (all_at_once, printed) = execute(joined);

    let (mut env, printed_first) = execute(first());
    let mut printed_second = Vec::new();
    for instruction in second() {
        assert!(can_step(&env, &instruction));
        if let Some(d) = step(&mut env, instruction) {
            printed_second.push(d);
        }
    }
    assert_eq!(printed_first.len(), 0);
    assert_eq!(printed.len(), printed_second.len());
    assert_eq!(format!("{:?}", printed), format!("{:?}", printed_second));
    assert_eq!(format!("{:?}", all_at_once.data_stack), format!("{:?}", env.data_stack));
    assert_eq!(all_at_once.data_stack.len(), 0);
}

#[test]
fn compiled_expression_then_print_prints_its_value() {
    let e = Expr::TupleCons {
        params: vec![
            Expr::Float { value: "1".to_string(), l_start: 1, l_end: 1 },
            Expr::Symbol { value: "a".to_string(), l_start: 3, l_end: 3 },
            Expr::TupleCons { params: vec![], l_start: 5, l_end: 6 },
        ],
        l_start: 0,
        l_end: 7,
    };
    let mut code = compile_expr(&e).unwrap();
    code.push(Il::Print);
    let (env, printed) = execute(code);
    assert_eq!(env.data_stack.len(), 0);
    assert_eq!(printed.len(), 1);
    match &printed[0] {
        IlData::Tuple(parts) => {
            assert_eq!(parts.len(), 3);
            assert!(is_float(&parts[0], "1"));
            assert!(matches!(&parts[1], IlData::Symbol(s) if s == "a"));
            assert!(matches!(&parts[2], IlData::Tuple(inner) if inner.is_empty()));
        }
        _ => assert!(false),
    }
}
