use cradle_idl::ast::lexer::{Lexer, Literal, TokenKind};
use cradle_idl::ast::parser::ty::parse_modifier;
use cradle_idl::ast::parser::Parser;
use cradle_idl::case::{caps, scream, small, snake};
use cradle_idl::example::{add, add_status, AddIn, Context, Error as AddError};
use cradle_idl::codegen::text::{blank, lines_of, push_decimal, push_signed, push_value};
use cradle_idl::ir::dom::EnumReprValue;
use cradle_idl::num::{parse_magnitude, parse_usize};
use cradle_idl::span::{line_col, substr};
use cradle_idl::text::{push_lower, push_str, push_upper};
use cradle_idl::{ErrorKind, SourceSpan, StringPool};

#[test]
fn identifier_tokens_and_bool_words() {
    let input = "abc_1 true trueish false9 x9";
    let mut lexer = Lexer::new(input, 3);
    let mut seen = Vec::new();
    while let Some(token) = lexer.next_token() {
        assert_eq!(token.span.index, 3);
        seen.push((token.kind, &input[token.span.range()]));
    }
    assert_eq!(
        seen,
        vec![
            (TokenKind::Ident, "abc_1"),
            (TokenKind::Literal(Literal::Bool), "true"),
            (TokenKind::Ident, "trueish"),
            (TokenKind::Ident, "false9"),
            (TokenKind::Ident, "x9"),
        ]
    );
}

#[test]
fn bool_word_before_an_underscore() {
    let input = "false_ x";
    let mut lexer = Lexer::new(input, 0);
    let first = lexer.next_token().unwrap();
    assert_eq!((first.kind, &input[first.span.range()]), (TokenKind::Literal(Literal::Bool), "false"));
    let second = lexer.next_token().unwrap();
    assert_eq!((second.kind, &input[second.span.range()]), (TokenKind::Error, "_ x"));
    assert!(lexer.next_token().is_none());
}

#[test]
fn literal_tokens() {
    let input = "-12 3.5e2 \"a\\\"b\" 'c' \"open";
    let mut lexer = Lexer::new(input, 0);
    let mut seen = Vec::new();
    while let Some(token) = lexer.next_token() {
        let end = if (token.span.end as usize) > input.len() { input.len() } else { token.span.end as usize };
        seen.push((token.kind, &input[token.span.start as usize..end]));
    }
    assert_eq!(
        seen,
        vec![
            (TokenKind::Literal(Literal::Integer), "-12"),
            (TokenKind::Literal(Literal::Float), "3.5e2"),
            (TokenKind::Literal(Literal::String), "\"a\\\"b\""),
            (TokenKind::Literal(Literal::Char), "'c'"),
            (TokenKind::Error, "\"open"),
        ]
    );
}

#[test]
fn modifier_length_range() {
    for (text, expected) in [
        ("[0]", ErrorKind::ETypeModifierOutOfRange),
        ("[70000]", ErrorKind::ETypeModifierOutOfRange),
        ("[1.5]", ErrorKind::ETypeModifierIntegerExpected),
    ] {
        let mut state = Parser::new(text, 0);
        assert_eq!(parse_modifier(&mut state), None);
        let kinds: Vec<ErrorKind> = state.errors.iter().map(|e| e.kind).collect();
        assert_eq!(kinds, vec![expected], "{}", text);
    }
    let mut state = Parser::new("[65535]", 0);
    assert!(parse_modifier(&mut state).is_some());
    assert!(state.errors.is_empty());
}

#[test]
fn cases_differ_only_in_letter_case() {
    for ident in ["XMLHttpRequest", "snake__case", "Point2D", "a-b_c", ""] {
        assert_eq!(snake(ident), scream(ident).to_ascii_lowercase());
        assert_eq!(small(ident), caps(ident).to_ascii_lowercase());
    }
    assert_eq!(caps("my_value2"), "MYVALUE2");
    assert_eq!(small("My-Value"), "myvalue");
}

#[test]
fn spans() {
    let a = SourceSpan::new(1, 4, 9);
    let b = SourceSpan::new(1, 2, 6);
    let c = a.combine(&b);
    assert_eq!((c.index, c.start, c.end), (1, 2, 9));
    let e = SourceSpan::empty(7);
    assert_eq!((e.index, e.start, e.end), (7, u32::MAX, u32::MAX));
    let text = "module M;\nhandle  File;\n";
    let span = SourceSpan::new(0, 18, 22);
    let r = span.resolve("f.idl", text);
    assert_eq!(r.text, "File");
    assert_eq!((r.line_start, r.column_start, r.line_end, r.column_end), (2, 9, 2, 13));
    assert_eq!(line_col(text, 0), (1, 1));
    assert_eq!(line_col(text, 1000), (3, 1));
    assert_eq!(substr("héllo", 1, 3), "é");
}

#[test]
fn pool_keeps_what_is_stored() {
    let mut pool = StringPool::new();
    let a = pool.store("first".to_string()).to_string();
    let b = pool.store(String::from("second"));
    assert_eq!(a, "first");
    assert_eq!(b, "second");
}

#[test]
fn numbers() {
    assert_eq!(parse_usize(b"42"), Some(42));
    assert_eq!(parse_usize(b"+7"), Some(7));
    assert_eq!(parse_usize(b""), None);
    assert_eq!(parse_usize(b"-1"), None);
    assert_eq!(parse_usize(b"1x"), None);
    assert_eq!(parse_magnitude(b"-300", true), (true, Some(300)));
    assert_eq!(parse_magnitude(b"-300", false), (false, None));
    assert_eq!(parse_magnitude(b"99999999999999999999", false), (false, None));
}

#[test]
fn text_helpers() {
    let mut buf = String::new();
    push_decimal(&mut buf, 0);
    push_str(&mut buf, " ");
    push_decimal(&mut buf, 1203);
    push_str(&mut buf, " ");
    push_signed(&mut buf, -45);
    push_str(&mut buf, " ");
    push_value(&mut buf, EnumReprValue::I64(i64::MIN));
    push_str(&mut buf, " ");
    push_value(&mut buf, EnumReprValue::U64(u64::MAX));
    push_str(&mut buf, " ");
    push_upper(&mut buf, "ab1é");
    push_lower(&mut buf, "CD");
    assert_eq!(buf, "0 1203 -45 -9223372036854775808 18446744073709551615 AB1écd");
    assert_eq!(lines_of("a\r\nb\n\nc"), vec!["a", "b", "", "c"]);
    assert_eq!(lines_of(""), Vec::<String>::new());
    assert_eq!(lines_of("x\n"), vec!["x"]);
    assert!(blank(" \t "));
    assert!(!blank(" x "));
}

#[test]
fn sample_operator_adds() {
    let ctx = Context::create();
    assert_eq!(add(&ctx, &AddIn { a: 2, b: 40 }), Ok(42));
    assert_eq!(add(&ctx, &AddIn { a: i32::MAX, b: 1 }), Err(AddError::Overflow));
    assert_eq!(add(&ctx, &AddIn { a: i32::MIN, b: -1 }), Err(AddError::Overflow));
}

#[test]
fn stray_slash_is_an_error_token() {
    let mut lexer = Lexer::new("/x", 0);
    let token = lexer.next_token().unwrap();
    assert_eq!(token.kind, TokenKind::Error);
    assert_eq!(token.span, SourceSpan::new(0, 0, 2));
    assert!(lexer.next_token().is_none());
}

#[test]
fn float_with_signed_exponent() {
    let input = "3.14e-1 2E+5 1e";
    let mut lexer = Lexer::new(input, 0);
    let mut seen = Vec::new();
    while let Some(token) = lexer.next_token() {
        seen.push((token.kind, &input[token.span.range()]));
    }
    assert_eq!(
        seen,
        vec![
            (TokenKind::Literal(Literal::Float), "3.14e-1"),
            (TokenKind::Literal(Literal::Float), "2E+5"),
            (TokenKind::Literal(Literal::Float), "1e"),
        ]
    );
}

#[test]
fn sample_operator_status_codes() {
    let ctx = Context::create();
    let input = AddIn { a: 2, b: 3 };
    assert_eq!(add_status(Some(&ctx), Some(&input), true), (0, Some(5)));
    assert_eq!(add_status(None, Some(&input), true), (-1, None));
    assert_eq!(add_status(Some(&ctx), None, true), (-1, None));
    assert_eq!(add_status(Some(&ctx), Some(&input), false), (-1, None));
    assert_eq!(add_status(Some(&ctx), Some(&AddIn { a: i32::MAX, b: 1 }), true), (1, None));
}
