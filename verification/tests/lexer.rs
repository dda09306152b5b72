use frontend_core::lexer::{LexError, LexErrorKind, Lexer, Token, TokenKind};

/// Collects every token up to and including `Eof`; panics on a lexical error.
fn lex_all(src: &str) -> Vec<Token> {
    assert!(Lexer::fits_span_range(src));
    let mut lexer = Lexer::new(src);
    let mut tokens = Vec::new();
    loop {
        let t = lexer.next_token().expect("unexpected lexical error");
        let done = matches!(t.kind, TokenKind::Eof);
        tokens.push(t);
        if done {
            return tokens;
        }
    }
}

/// The first error a source produces, skipping tokens before it.
fn lex_err(src: &str) -> LexError {
    let mut lexer = Lexer::new(src);
    loop {
        match lexer.next_token() {
            Ok(t) => {
                assert!(
                    !matches!(t.kind, TokenKind::Eof),
                    "input lexed to Eof without an error"
                );
            }
            Err(e) => return e,
        }
    }
}

#[test]
fn test_float_literal_with_separators() {
    let tokens = lex_all("6_000.9");
    assert_eq!(tokens.len(), 2);
    match &tokens[0].kind {
        TokenKind::FloatLit(text) => {
            assert_eq!(text, "6000.9");
            assert_eq!(text.parse::<f64>().unwrap(), 6000.9);
        }
        other => panic!("expected a float token, got {:?}", other),
    }
    assert_eq!(tokens[0].span.start, 0);
    assert_eq!(tokens[0].span.end, 7);
}

#[test]
fn test_integer_literal() {
    let tokens = lex_all("8");
    assert!(matches!(tokens[0].kind, TokenKind::IntegerLit(8)));
    assert_eq!(tokens[0].span.start, 0);
    assert_eq!(tokens[0].span.end, 1);
}

#[test]
fn test_string_literal_newline_escape() {
    let tokens = lex_all("\"a\\nb\"");
    match &tokens[0].kind {
        TokenKind::StringLit(text) => assert_eq!(text, "a\nb"),
        other => panic!("expected a string token, got {:?}", other),
    }
}

#[test]
fn test_string_escapes() {
    let tokens = lex_all("\"t\\tr\\rq\\\"s\\\\u\\qv\"");
    match &tokens[0].kind {
        TokenKind::StringLit(text) => assert_eq!(text, "t\tr\rq\"s\\u\\qv"),
        other => panic!("expected a string token, got {:?}", other),
    }
}

#[test]
fn test_minus_forms() {
    assert!(matches!(lex_all("-")[0].kind, TokenKind::Minus));
    assert!(matches!(lex_all("->")[0].kind, TokenKind::Arrow));
    assert!(matches!(lex_all("-=")[0].kind, TokenKind::MinusAssign));
}

#[test]
fn test_pipe_forms() {
    assert!(matches!(lex_all("|")[0].kind, TokenKind::BitOr));
    assert!(matches!(lex_all("|>")[0].kind, TokenKind::PipeGreater));
    assert!(matches!(lex_all("||")[0].kind, TokenKind::OrOr));
}

#[test]
fn test_remaining_operators() {
    let cases: Vec<(&str, TokenKind)> = vec![
        ("(", TokenKind::LParen),
        (")", TokenKind::RParen),
        ("{", TokenKind::LBrace),
        ("}", TokenKind::RBrace),
        ("[", TokenKind::LBracket),
        ("]", TokenKind::RBracket),
        (",", TokenKind::Comma),
        (".", TokenKind::Dot),
        (":", TokenKind::Colon),
        (";", TokenKind::Semicolon),
        ("?", TokenKind::Question),
        ("+", TokenKind::Plus),
        ("+=", TokenKind::PlusAssign),
        ("*", TokenKind::Star),
        ("*=", TokenKind::StarAssign),
        ("/", TokenKind::Slash),
        ("/=", TokenKind::SlashAssign),
        ("%", TokenKind::Percent),
        ("!", TokenKind::Bang),
        ("!=", TokenKind::NotEq),
        ("@", TokenKind::At),
        ("&", TokenKind::Ampersand),
        ("&&", TokenKind::AndAnd),
        ("^", TokenKind::BitXor),
        ("~", TokenKind::BitNot),
        (">", TokenKind::Gt),
        (">=", TokenKind::GtEq),
        (">>", TokenKind::Shr),
        ("<", TokenKind::Lt),
        ("<=", TokenKind::LtEq),
        ("<<", TokenKind::Shl),
        ("=", TokenKind::Assign),
        ("==", TokenKind::EqEq),
        ("=>", TokenKind::FatArrow),
    ];
    for (src, expected) in cases {
        let got = &lex_all(src)[0].kind;
        assert_eq!(
            std::mem::discriminant(got),
            std::mem::discriminant(&expected),
            "lexing {:?} gave {:?}",
            src,
            got
        );
    }
}

#[test]
fn test_dot_after_integer_is_not_a_float() {
    let tokens = lex_all("3.foo");
    assert!(matches!(tokens[0].kind, TokenKind::IntegerLit(3)));
    assert!(matches!(tokens[1].kind, TokenKind::Dot));
    match &tokens[2].kind {
        TokenKind::Ident(text) => assert_eq!(text, "foo"),
        other => panic!("expected an identifier, got {:?}", other),
    }
    assert!(matches!(tokens[3].kind, TokenKind::Eof));
}

#[test]
fn test_every_keyword_is_classified() {
    let cases: Vec<(&str, TokenKind)> = vec![
        ("fn", TokenKind::Fn),
        ("struct", TokenKind::Struct),
        ("enum", TokenKind::Enum),
        ("union", TokenKind::Union),
        ("impl", TokenKind::Impl),
        ("const", TokenKind::Const),
        ("extern", TokenKind::Extern),
        ("val", TokenKind::Val),
        ("var", TokenKind::Var),
        ("defer", TokenKind::Defer),
        ("while", TokenKind::While),
        ("for", TokenKind::For),
        ("in", TokenKind::In),
        ("loop", TokenKind::Loop),
        ("if", TokenKind::If),
        ("else", TokenKind::Else),
        ("match", TokenKind::Match),
        ("break", TokenKind::Break),
        ("return", TokenKind::Return),
        ("void", TokenKind::Void),
        ("undefined", TokenKind::Undefined),
    ];
    for (src, expected) in cases {
        let got = &lex_all(src)[0].kind;
        assert_eq!(
            std::mem::discriminant(got),
            std::mem::discriminant(&expected),
            "keyword {:?} gave {:?}",
            src,
            got
        );
    }
    assert!(matches!(lex_all("true")[0].kind, TokenKind::BoolLit(true)));
    assert!(matches!(lex_all("false")[0].kind, TokenKind::BoolLit(false)));
    assert!(matches!(lex_all("null")[0].kind, TokenKind::Null));
}

#[test]
fn test_near_keywords_stay_identifiers() {
    for src in ["fnx", "Fn", "vall", "va", "whilee", "_if", "match_", "truee", "nul"] {
        match &lex_all(src)[0].kind {
            TokenKind::Ident(text) => assert_eq!(text, src),
            other => panic!("{:?} should be an identifier, got {:?}", src, other),
        }
    }
}

#[test]
fn test_end_to_end_binding_scenario() {
    let tokens = lex_all("val a = 6_000.9; val b = 8; a + b");
    let kinds: Vec<&TokenKind> = tokens.iter().map(|t| &t.kind).collect();
    assert_eq!(kinds.len(), 14);
    assert!(matches!(kinds[0], TokenKind::Val));
    assert!(matches!(kinds[1], TokenKind::Ident(x) if x == "a"));
    assert!(matches!(kinds[2], TokenKind::Assign));
    assert!(matches!(kinds[3], TokenKind::FloatLit(x) if x == "6000.9"));
    assert!(matches!(kinds[4], TokenKind::Semicolon));
    assert!(matches!(kinds[5], TokenKind::Val));
    assert!(matches!(kinds[6], TokenKind::Ident(x) if x == "b"));
    assert!(matches!(kinds[7], TokenKind::Assign));
    assert!(matches!(kinds[8], TokenKind::IntegerLit(8)));
    assert!(matches!(kinds[9], TokenKind::Semicolon));
    assert!(matches!(kinds[10], TokenKind::Ident(x) if x == "a"));
    assert!(matches!(kinds[11], TokenKind::Plus));
    assert!(matches!(kinds[12], TokenKind::Ident(x) if x == "b"));
    assert!(matches!(kinds[13], TokenKind::Eof));
}

#[test]
fn test_char_literal() {
    let tokens = lex_all("'x'");
    assert!(matches!(tokens[0].kind, TokenKind::Char('x')));
    assert_eq!(tokens[0].span.start, 0);
    assert_eq!(tokens[0].span.end, 3);
}

#[test]
fn test_spans_are_utf8_byte_offsets() {
    // The string literal holds a two-byte character, shifting later spans.
    let tokens = lex_all("\"é\" + 1");
    assert!(matches!(&tokens[0].kind, TokenKind::StringLit(x) if x == "é"));
    assert_eq!(tokens[0].span, frontend_core::common::Span::new(0, 4));
    assert_eq!(tokens[1].span, frontend_core::common::Span::new(5, 6));
    assert_eq!(tokens[2].span, frontend_core::common::Span::new(7, 8));
    assert_eq!(tokens[3].span, frontend_core::common::Span::new(8, 8));
}

#[test]
fn test_eof_span_is_empty_at_final_position() {
    let tokens = lex_all("  ");
    assert!(matches!(tokens[0].kind, TokenKind::Eof));
    assert_eq!(tokens[0].span.start, 2);
    assert_eq!(tokens[0].span.end, 2);
}

#[test]
fn test_unicode_whitespace_is_skipped() {
    // No-break space, ogham space mark, en space, line separator,
    // narrow no-break space, ideographic space: all skipped, none lexed.
    let src = "\u{A0}\u{1680}1\u{2002}+\u{2028}\u{202F}2\u{3000}";
    for c in src.chars() {
        assert_eq!(c.is_whitespace(), !matches!(c, '1' | '+' | '2'));
    }
    let tokens = lex_all(src);
    assert!(matches!(tokens[0].kind, TokenKind::IntegerLit(1)));
    assert!(matches!(tokens[1].kind, TokenKind::Plus));
    assert!(matches!(tokens[2].kind, TokenKind::IntegerLit(2)));
    assert!(matches!(tokens[3].kind, TokenKind::Eof));
    // Spans still count UTF-8 bytes: NBSP (2) + ogham (3) put `1` at byte 5.
    assert_eq!(tokens[0].span.start, 5);
    assert_eq!(tokens[0].span.end, 6);
}

#[test]
fn test_unterminated_string_is_fatal() {
    let e = lex_err("\"abc");
    assert_eq!(e.kind, LexErrorKind::UnterminatedString);
    assert_eq!(e.pos, 0);
}

#[test]
fn test_unterminated_string_after_escape() {
    let e = lex_err("\"abc\\");
    assert_eq!(e.kind, LexErrorKind::UnterminatedString);
}

#[test]
fn test_unterminated_char_literal() {
    assert_eq!(lex_err("'").kind, LexErrorKind::UnterminatedChar);
    assert_eq!(lex_err("'a").kind, LexErrorKind::UnexpectedEnd);
    assert_eq!(lex_err("'ab'").kind, LexErrorKind::Expected('\''));
}

#[test]
fn test_integer_overflow_is_malformed() {
    let e = lex_err("99999999999999999999");
    assert_eq!(e.kind, LexErrorKind::MalformedNumber);
    // The largest value that fits still lexes.
    let tokens = lex_all("9223372036854775807");
    assert!(matches!(tokens[0].kind, TokenKind::IntegerLit(i64::MAX)));
}

#[test]
fn test_unknown_character() {
    let e = lex_err("#");
    assert_eq!(e.kind, LexErrorKind::UnknownChar('#'));
    let e = lex_err("a $");
    assert_eq!(e.kind, LexErrorKind::UnknownChar('$'));
    assert_eq!(e.pos, 2);
}

#[test]
fn test_underscores_group_integer_digits() {
    assert!(matches!(lex_all("1_000_000")[0].kind, TokenKind::IntegerLit(1000000)));
    // A trailing separator ends the digits but stays out of the value.
    let tokens = lex_all("12_");
    assert!(matches!(tokens[0].kind, TokenKind::IntegerLit(12)));
}

#[test]
fn test_dot_needs_a_digit_right_after() {
    // `1._5` reads as the integer 1, a dot, then an identifier.
    let tokens = lex_all("1._5");
    assert!(matches!(tokens[0].kind, TokenKind::IntegerLit(1)));
    assert!(matches!(tokens[1].kind, TokenKind::Dot));
    assert!(matches!(&tokens[2].kind, TokenKind::Ident(x) if x == "_5"));
    // A second dot ends a float: `1.2.3` is 1.2, dot, 3.
    let tokens = lex_all("1.2.3");
    assert!(matches!(&tokens[0].kind, TokenKind::FloatLit(x) if x == "1.2"));
    assert!(matches!(tokens[1].kind, TokenKind::Dot));
    assert!(matches!(tokens[2].kind, TokenKind::IntegerLit(3)));
}
