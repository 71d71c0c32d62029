use tuple_lang::data::{Lexeme, ParseError};
use tuple_lang::parsing::lexer::{lex, lex_float};
use tuple_lang::parsing::stream::CharStream;
use tuple_lang::text::is_whitespace;

fn float_value(lexeme: &Lexeme) -> Option<f64> {
    if let Lexeme::Float { value, .. } = lexeme {
        value.parse::<f64>().ok()
    } else {
        None
    }
}

#[test]
fn float_parser_should_parse_everything() {
    let input = "+1234.1234E+12";
    let mut input = CharStream::new(input);
    let output = lex_float(&mut input).unwrap();
    if let Lexeme::Float { value: output, .. } = output {
        assert_eq!(1234.1234E+12, output.parse::<f64>().unwrap());
    } else {
        assert!(false);
    }
}

#[test]
fn float_parser_should_parse_negatives() {
    let input = "-1234.1234E-12";
    let mut input = CharStream::new(input);
    let output = lex_float(&mut input).unwrap();
    if let Lexeme::Float { value: output, .. } = output {
        assert_eq!(-1234.1234E-12, output.parse::<f64>().unwrap());
    } else {
        assert!(false);
    }
}

#[test]
fn float_parser_should_parse_little_e_scientific_notation() {
    let input = "-1234.1234e-12";
    let mut input = CharStream::new(input);
    let output = lex_float(&mut input).unwrap();
    if let Lexeme::Float { value: output, .. } = output {
        assert_eq!(-1234.1234E-12, output.parse::<f64>().unwrap());
    } else {
        assert!(false);
    }
}

#[test]
fn float_parser_should_parse_no_scientific_notation() {
    let input = "-1234.1234";
    let mut input = CharStream::new(input);
    let output = lex_float(&mut input).unwrap();
    if let Lexeme::Float { value: output, .. } = output {
        assert_eq!(-1234.1234, output.parse::<f64>().unwrap());
    } else {
        assert!(false);
    }
}

#[test]
fn float_parser_should_parse_no_sign() {
    let input = "1234.1234";
    let mut input = CharStream::new(input);
    let output = lex_float(&mut input).unwrap();
    if let Lexeme::Float { value: output, .. } = output {
        assert_eq!(1234.1234, output.parse::<f64>().unwrap());
    } else {
        assert!(false);
    }
}

#[test]
fn float_parser_should_parse_no_decimal() {
    let input = "1234";
    let mut input = CharStream::new(input);
    let output = lex_float(&mut input).unwrap();
    if let Lexeme::Float { value: output, .. } = output {
        assert_eq!(1234.0, output.parse::<f64>().unwrap());
    } else {
        assert!(false);
    }
}

#[test]
fn float_parser_should_parse_no_decimal_with_scientific_notation() {
    let input = "1234E12";
    let mut input = CharStream::new(input);
    let output = lex_float(&mut input).unwrap();
    if let Lexeme::Float { value: output, .. } = output {
        assert_eq!(1234.0E12, output.parse::<f64>().unwrap());
    } else {
        assert!(false);
    }
}

#[test]
fn float_keeps_its_text_and_span() {
    let mut input = CharStream::new("-12.5e+3 rest");
    let output = lex_float(&mut input).unwrap();
    match output {
        Lexeme::Float { value, start, end } => {
            assert_eq!(value, "-12.5e+3");
            assert_eq!(start, 0);
            assert_eq!(end, 7);
        }
        _ => assert!(false),
    }
    assert_eq!(input.position(), 8);
}

#[test]
fn float_stops_before_a_dot_without_digits() {
    let mut input = CharStream::new("12.x");
    let output = lex_float(&mut input).unwrap();
    assert_eq!(float_value(&output), Some(12.0));
    assert_eq!(input.position(), 2);
}

#[test]
fn float_stops_before_an_exponent_without_digits() {
    let mut input = CharStream::new("12e+");
    let output = lex_float(&mut input).unwrap();
    assert_eq!(float_value(&output), Some(12.0));
    assert_eq!(input.position(), 2);
}

#[test]
fn float_that_does_not_match_leaves_the_input() {
    let mut input = CharStream::new("-x");
    assert_eq!(lex_float(&mut input).unwrap_err(), ParseError::Error);
    assert_eq!(input.position(), 0);
}

#[test]
fn lex_reads_every_kind_of_lexeme() {
    let lexemes = lex(" (1, :ab_1) x2; ").unwrap();
    assert_eq!(lexemes.len(), 7);
    assert!(matches!(lexemes[0], Lexeme::LParen { index: 1 }));
    assert_eq!(float_value(&lexemes[1]), Some(1.0));
    assert!(matches!(lexemes[2], Lexeme::Comma { index: 3 }));
    match &lexemes[3] {
        Lexeme::ColonSymbol { value, start, end } => {
            assert_eq!(value, "ab_1");
            assert_eq!(*start, 5);
            assert_eq!(*end, 8);
        }
        _ => assert!(false),
    }
    assert!(matches!(lexemes[4], Lexeme::RParen { index: 10 }));
    match &lexemes[5] {
        Lexeme::Symbol { value, start, end } => {
            assert_eq!(value, "x2");
            assert_eq!(*start, 12);
            assert_eq!(*end, 13);
        }
        _ => assert!(false),
    }
    assert!(matches!(lexemes[6], Lexeme::SemiColon { index: 14 }));
}

#[test]
fn lex_positions_are_byte_offsets() {
    let lexemes = lex("\u{a0}\u{3000}x").unwrap();
    assert_eq!(lexemes.len(), 1);
    assert!(matches!(lexemes[0], Lexeme::Symbol { start: 5, end: 5, .. }));
}

#[test]
fn lex_of_nothing_is_empty() {
    assert_eq!(lex("").unwrap().len(), 0);
}

#[test]
fn lex_of_white_space_alone_fails() {
    assert_eq!(lex("  ").unwrap_err(), ParseError::Fatal);
}

#[test]
fn lex_fails_on_a_character_that_starts_no_lexeme() {
    assert_eq!(lex("x - y").unwrap_err(), ParseError::Fatal);
    assert_eq!(lex("1.").unwrap_err(), ParseError::Fatal);
    assert_eq!(lex(": a").unwrap_err(), ParseError::Fatal);
}

#[test]
fn number_comes_before_symbol() {
    let lexemes = lex("12ab").unwrap();
    assert_eq!(lexemes.len(), 2);
    assert_eq!(float_value(&lexemes[0]), Some(12.0));
    assert!(matches!(&lexemes[1], Lexeme::Symbol { value, .. } if value == "ab"));
}

#[test]
fn stream_offsets_match_char_indices() {
    let text = "a\u{e9}\u{20ac}\u{1f600}b";
    let mut stream = CharStream::new(text);
    for (i, c) in text.char_indices() {
        assert_eq!(stream.next(), Some((i, c)));
    }
    assert_eq!(stream.next(), None);
}

#[test]
fn white_space_is_the_unicode_property() {
    for code in 0u32..=0x10ffff {
        if let Some(c) = char::from_u32(code) {
            assert_eq!(is_whitespace(c), c.is_whitespace(), "{:?}", c);
        }
    }
}

#[test]
fn lexemes_come_in_the_order_of_the_text() {
    let lexemes = lex("f(:a, 1.5e2, (x));").unwrap();
    let starts: Vec<usize> = lexemes
        .iter()
        .map(|l| match l {
            Lexeme::LParen { index } | Lexeme::RParen { index } | Lexeme::Comma { index } | Lexeme::SemiColon { index } => *index,
            Lexeme::Float { start, .. } | Lexeme::Symbol { start, .. } | Lexeme::ColonSymbol { start, .. } => *start,
        })
        .collect();
    assert_eq!(starts, vec![0, 1, 2, 4, 6, 11, 13, 14, 15, 16, 17]);
}

fn content(l: &Lexeme) -> String {
    match l {
        Lexeme::LParen { .. } => "(".to_string(),
        Lexeme::RParen { .. } => ")".to_string(),
        Lexeme::Comma { .. } => ",".to_string(),
        Lexeme::SemiColon { .. } => ";".to_string(),
        Lexeme::Float { value, .. } => format!("number {}", value),
        Lexeme::Symbol { value, .. } => format!("symbol {}", value),
        Lexeme::ColonSymbol { value, .. } => format!("colon symbol {}", value),
    }
}

fn start(l: &Lexeme) -> usize {
    match l {
        Lexeme::LParen { index }
        | Lexeme::RParen { index }
        | Lexeme::Comma { index }
        | Lexeme::SemiColon { index } => *index,
        Lexeme::Float { start, .. } | Lexeme::Symbol { start, .. } | Lexeme::ColonSymbol { start, .. } => {
            *start
        }
    }
}

#[test]
fn sign_before_a_number_joins_the_literal() {
    for (unsigned, sign) in [("12.5e3 x", '-'), ("7", '+'), ("0.25(", '-'), ("3E-2", '+')] {
        let plain = lex_float(&mut CharStream::new(unsigned)).unwrap();
        let signed_text = format!("{}{}", sign, unsigned);
        let signed = lex_float(&mut CharStream::new(&signed_text)).unwrap();
        match (plain, signed) {
            (
                Lexeme::Float { value: v, start: s, end: e },
                Lexeme::Float { value: w, start: t, end: f },
            ) => {
                assert_eq!(s, 0);
                assert_eq!(t, 0);
                assert_eq!(f, e + 1);
                assert_eq!(w, format!("{}{}", sign, v));
            }
            _ => assert!(false),
        }
    }
}

#[test]
fn spacing_changes_only_positions() {
    let narrow = lex("(1, :a)  b;").unwrap();
    let wide = lex(" (1,\t\u{2003}:a)\n\nb;\t").unwrap();
    let narrow_contents: Vec<String> = narrow.iter().map(content).collect();
    let wide_contents: Vec<String> = wide.iter().map(content).collect();
    assert_eq!(narrow_contents, vec!["(", "number 1", ",", "colon symbol a", ")", "symbol b", ";"]);
    assert_eq!(narrow_contents, wide_contents);
    let narrow_starts: Vec<usize> = narrow.iter().map(start).collect();
    let wide_starts: Vec<usize> = wide.iter().map(start).collect();
    assert_eq!(narrow_starts, vec![0, 1, 2, 4, 6, 9, 10]);
    assert_eq!(wide_starts, vec![1, 2, 3, 8, 10, 13, 14]);
}

#[test]
fn spacing_does_not_change_a_failure() {
    assert!(lex("1 ?").is_err());
    assert!(lex("1 \t ?").is_err());
}
