use tuple_lang::data::{DefOrExpr, Expr, Pat};
use tuple_lang::parsing::lexer::lex;
use tuple_lang::parsing::parser::{parse, parse_expr, parse_expr_list, parse_fn_def, parse_tuple_cons};
use tuple_lang::parsing::pattern_parser::parse_pattern;
use tuple_lang::parsing::stream::LexemeStream;

fn is_float(e: &Expr, expected: f64) -> bool {
    matches!(e, Expr::Float { value, .. } if value.parse::<f64>() == Ok(expected))
}

fn is_pat_float(p: &Pat, expected: f64) -> bool {
    matches!(p, Pat::Float { value, .. } if value.parse::<f64>() == Ok(expected))
}

#[test]
fn parse_should_call_following_call() {
    let ls = lex("x(1, 2, 3)(4, 5, 6)").unwrap();
    let mut ls = LexemeStream::new(&ls);
    let output = parse(&mut ls).unwrap();

    let mut matched = false;
    if let [DefOrExpr::Expr(Expr::Call { fn_expr: outer_fn_expr, params: outer_params, .. })] = &output[..] {
        if let Expr::Call { fn_expr: inner_fn_expr, params: inner_params, .. } = &**outer_fn_expr {
            if let Expr::Var { value, .. } = &**inner_fn_expr {
                assert_eq!(value, "x");
                assert_eq!(inner_params.len(), 3);
                assert!(is_float(&inner_params[0], 1.0));
                assert!(is_float(&inner_params[1], 2.0));
                assert!(is_float(&inner_params[2], 3.0));
                assert_eq!(outer_params.len(), 3);
                assert!(is_float(&outer_params[0], 4.0));
                assert!(is_float(&outer_params[1], 5.0));
                assert!(is_float(&outer_params[2], 6.0));
                matched = true;
            }
        }
    }
    assert!(matched);
}

#[test]
fn parse_should_parse_call_with_inner_calls() {
    let ls = lex("x(y(), 2, 3)").unwrap();
    let mut ls = LexemeStream::new(&ls);
    let output = parse(&mut ls).unwrap();

    let mut matched = false;
    if let [DefOrExpr::Expr(Expr::Call { fn_expr, params, .. })] = &output[..] {
        if let Expr::Var { value, .. } = &**fn_expr {
            assert_eq!(value, "x");
            assert_eq!(params.len(), 3);
            assert!(is_float(&params[1], 2.0));
            assert!(is_float(&params[2], 3.0));
            let inner = &params[0];
            if let Expr::Call { fn_expr, params, .. } = inner {
                if let Expr::Var { value, .. } = &**fn_expr {
                    assert_eq!(value, "y");
                    assert_eq!(params.len(), 0);
                    matched = true;
                }
            }
        }
    }
    assert!(matched);
}

#[test]
fn parse_should_parse_call() {
    let ls = lex("x(1, 2, 3)").unwrap();
    let mut ls = LexemeStream::new(&ls);
    let output = parse(&mut ls).unwrap();

    let mut matched = false;
    if let [DefOrExpr::Expr(Expr::Call { fn_expr, params, .. })] = &output[..] {
        if let Expr::Var { value, .. } = &**fn_expr {
            assert_eq!(value, "x");
            assert_eq!(params.len(), 3);
            assert!(is_float(&params[0], 1.0));
            assert!(is_float(&params[1], 2.0));
            assert!(is_float(&params[2], 3.0));
            matched = true;
        }
    }
    assert!(matched);
}

#[test]
fn parse_should_parse_fn_def() {
    let ls = lex("fn name(a, b, c) 1.0;").unwrap();
    let mut ls = LexemeStream::new(&ls);
    let output = parse(&mut ls).unwrap();

    let mut matched = false;
    if let [DefOrExpr::FnDef(def)] = &output[..] {
        if is_float(&def.body, 1.0) {
            assert_eq!(def.name, "name");
            assert_eq!(def.params[0], "a");
            assert_eq!(def.params[1], "b");
            assert_eq!(def.params[2], "c");
            matched = true;
        }
    }
    assert!(matched);
}

#[test]
fn parse_should_parse_float() {
    let ls = lex("1.0").unwrap();
    let mut ls = LexemeStream::new(&ls);
    let output = parse(&mut ls).unwrap();

    let mut matched = false;
    if let [DefOrExpr::Expr(e)] = &output[..] {
        if is_float(e, 1.0) {
            matched = true;
        }
    }
    assert!(matched);
}

#[test]
fn parse_tuple_cons_should_parse() {
    let ls = lex("(1, 2, 3)").unwrap();
    let mut ls = LexemeStream::new(&ls);
    let output = parse_tuple_cons(&mut ls).unwrap();

    let mut matched = false;
    if let Expr::TupleCons { ref params, .. } = output {
        if let [a, b, c] = &params[..] {
            if is_float(a, 1.0) && is_float(b, 2.0) && is_float(c, 3.0) {
                matched = true;
            }
        }
    }
    assert!(matched);
}

#[test]
fn parse_pattern_should_parse_tuple() {
    let ls = lex("(1, 2, 3)").unwrap();
    let mut ls = LexemeStream::new(&ls);
    let output = parse_pattern(&mut ls).unwrap();

    let mut matched = false;
    if let Pat::Tuple { ref params, .. } = output {
        if let [a, b, c] = &params[..] {
            if is_pat_float(a, 1.0) && is_pat_float(b, 2.0) && is_pat_float(c, 3.0) {
                matched = true;
            }
        }
    }
    assert!(matched);
}

#[test]
fn tuple_spans_its_parentheses() {
    let ls = lex("(:a, (1,), x)").unwrap();
    let mut ls = LexemeStream::new(&ls);
    let output = parse_tuple_cons(&mut ls).unwrap();
    assert_eq!(ls.position(), 10);
    match output {
        Expr::TupleCons { params, l_start, l_end } => {
            assert_eq!(l_start, 0);
            assert_eq!(l_end, 9);
            assert_eq!(params.len(), 3);
            assert!(matches!(&params[0], Expr::Symbol { value, l_start: 1, l_end: 1 } if value == "a"));
            assert!(matches!(&params[1], Expr::TupleCons { params, l_start: 3, l_end: 6 } if params.len() == 1));
            assert!(matches!(&params[2], Expr::Var { value, l_start: 8, l_end: 8 } if value == "x"));
        }
        _ => assert!(false),
    }
}

#[test]
fn parse_stops_where_nothing_matches() {
    let ls = lex("1 :a ) 2").unwrap();
    let mut ls = LexemeStream::new(&ls);
    let output = parse(&mut ls).unwrap();
    assert_eq!(output.len(), 2);
    assert_eq!(ls.position(), 2);
}

#[test]
fn unclosed_tuple_leaves_the_input() {
    let ls = lex("(1, 2").unwrap();
    let mut ls = LexemeStream::new(&ls);
    assert!(parse_tuple_cons(&mut ls).is_err());
    assert_eq!(ls.position(), 0);
    let output = parse(&mut ls).unwrap();
    assert_eq!(output.len(), 0);
    assert_eq!(ls.position(), 0);
}

#[test]
fn broken_definition_is_read_as_expressions() {
    let ls = lex("fn f(a) 1").unwrap();
    let mut ls = LexemeStream::new(&ls);
    assert!(parse_fn_def(&mut ls).is_err());
    assert_eq!(ls.position(), 0);
    let output = parse(&mut ls).unwrap();
    assert_eq!(output.len(), 3);
    assert!(matches!(&output[0], DefOrExpr::Expr(Expr::Var { value, .. }) if value == "fn"));
    assert!(matches!(&output[1], DefOrExpr::Expr(Expr::Call { params, .. }) if params.len() == 1));
    assert!(matches!(&output[2], DefOrExpr::Expr(e) if is_float(e, 1.0)));
}

#[test]
fn fn_def_with_trailing_comma_and_no_params() {
    let ls = lex("fn f(a, b,) :x; fn g() 2;").unwrap();
    let mut ls = LexemeStream::new(&ls);
    let output = parse(&mut ls).unwrap();
    assert_eq!(output.len(), 2);
    match &output[0] {
        DefOrExpr::FnDef(d) => {
            assert_eq!(d.name, "f");
            assert_eq!(d.params, vec!["a".to_string(), "b".to_string()]);
        }
        _ => assert!(false),
    }
    match &output[1] {
        DefOrExpr::FnDef(d) => {
            assert_eq!(d.name, "g");
            assert_eq!(d.params.len(), 0);
            assert!(is_float(&d.body, 2.0));
        }
        _ => assert!(false),
    }
}

#[test]
fn expr_list_allows_a_trailing_comma() {
    let ls = lex("1, 2,)").unwrap();
    let mut ls = LexemeStream::new(&ls);
    let exprs = parse_expr_list(&mut ls);
    assert_eq!(exprs.len(), 2);
    assert_eq!(ls.position(), 4);
}

#[test]
fn tuple_can_be_called() {
    let ls = lex("(1)(2)").unwrap();
    let mut ls = LexemeStream::new(&ls);
    let e = parse_expr(&mut ls).unwrap();
    match e {
        Expr::Call { fn_expr, params, l_start, l_end } => {
            assert!(matches!(*fn_expr, Expr::TupleCons { .. }));
            assert_eq!(params.len(), 1);
            assert_eq!((l_start, l_end), (0, 0));
        }
        _ => assert!(false),
    }
}

#[test]
fn patterns_of_every_kind() {
    let ls = lex("(x, :s, 1.5, (y,),)").unwrap();
    let mut ls = LexemeStream::new(&ls);
    let p = parse_pattern(&mut ls).unwrap();
    match p {
        Pat::Tuple { params, l_start, l_end } => {
            assert_eq!((l_start, l_end), (0, 12));
            assert_eq!(params.len(), 4);
            assert!(matches!(&params[0], Pat::UnboundVariable { value, .. } if value == "x"));
            assert!(matches!(&params[1], Pat::Symbol { value, .. } if value == "s"));
            assert!(is_pat_float(&params[2], 1.5));
            assert!(matches!(&params[3], Pat::Tuple { params, .. } if params.len() == 1));
        }
        _ => assert!(false),
    }
}
