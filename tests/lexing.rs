use athena_lib::error::ErrCode;
use athena_lib::lexer::lex;
use athena_lib::token::{Token, TokenKind};
use athena_lib::Span;

fn sp(start: usize, end: usize) -> Span {
    Span { start, end }
}

fn kinds(tokens: &[Token]) -> Vec<TokenKind> {
    tokens.iter().map(|t| t.kind.clone()).collect()
}

#[test]
fn empty_input_gives_only_eof() {
    let r = lex("");
    assert!(!r.has_err());
    let toks = r.into_tokens();
    assert_eq!(toks, vec![Token { kind: TokenKind::EOF, span: sp(0, 0) }]);
}

#[test]
fn blank_input_gives_only_eof() {
    let toks = lex("  \t ").into_tokens();
    assert_eq!(toks, vec![Token { kind: TokenKind::EOF, span: sp(0, 0) }]);
}

#[test]
fn simple_expression_tokens_and_spans() {
    let toks = lex("1 + 2*x").into_tokens();
    assert_eq!(
        toks,
        vec![
            Token { kind: TokenKind::Integer(1), span: sp(0, 1) },
            Token { kind: TokenKind::Add, span: sp(2, 3) },
            Token { kind: TokenKind::Integer(2), span: sp(4, 5) },
            Token { kind: TokenKind::Mul, span: sp(5, 6) },
            Token { kind: TokenKind::Ident("x".to_string()), span: sp(6, 7) },
            Token { kind: TokenKind::EOF, span: sp(6, 7) },
        ]
    );
}

#[test]
fn two_character_operators() {
    let toks = lex("a<=b==c>=d=e<f>g").into_tokens();
    let id = |s: &str| TokenKind::Ident(s.to_string());
    assert_eq!(
        kinds(&toks),
        vec![
            id("a"),
            TokenKind::CmpLtEq,
            id("b"),
            TokenKind::CmpEq,
            id("c"),
            TokenKind::CmpGtEq,
            id("d"),
            TokenKind::Eq,
            id("e"),
            TokenKind::CmpLt,
            id("f"),
            TokenKind::CmpGt,
            id("g"),
            TokenKind::EOF,
        ]
    );
}

#[test]
fn punctuation_and_separators() {
    let toks = lex("{a:b},c;d\n^-/").into_tokens();
    let id = |s: &str| TokenKind::Ident(s.to_string());
    assert_eq!(
        kinds(&toks),
        vec![
            TokenKind::OpenCurly,
            id("a"),
            TokenKind::Colon,
            id("b"),
            TokenKind::CloseCurly,
            TokenKind::Comma,
            id("c"),
            TokenKind::NL,
            id("d"),
            TokenKind::NL,
            TokenKind::Pow,
            TokenKind::Sub,
            TokenKind::Div,
            TokenKind::EOF,
        ]
    );
}

#[test]
fn line_comment_is_skipped() {
    let toks = lex("x // a comment * 3\ny").into_tokens();
    let id = |s: &str| TokenKind::Ident(s.to_string());
    assert_eq!(kinds(&toks), vec![id("x"), TokenKind::NL, id("y"), TokenKind::EOF]);
    assert_eq!(toks[1].span, sp(18, 19));
}

#[test]
fn unknown_character_is_reported_and_skipped() {
    let r = lex("1 # 2");
    assert!(r.has_err());
    let toks = r.tokens().clone();
    assert_eq!(kinds(&toks), vec![TokenKind::Integer(1), TokenKind::Integer(2), TokenKind::EOF]);
    let errs = r.into_errors();
    assert_eq!(errs.len(), 1);
    assert_eq!(errs[0].pos, sp(2, 3));
    assert_eq!(errs[0].msg, "unknown character");
    assert_eq!(errs[0].code, ErrCode::Lexer);
}

#[test]
fn every_unknown_character_is_reported() {
    let r = lex("@x$");
    let errs = r.into_errors();
    assert_eq!(errs.len(), 2);
    assert_eq!(errs[0].pos, sp(0, 1));
    assert_eq!(errs[1].pos, sp(2, 3));
}

#[test]
fn integer_overflow_is_a_lexical_error() {
    let r = lex("99999999999");
    let toks = r.tokens().clone();
    assert_eq!(toks, vec![Token { kind: TokenKind::EOF, span: sp(0, 0) }]);
    let errs = r.into_errors();
    assert_eq!(errs.len(), 1);
    assert_eq!(errs[0].pos, sp(0, 11));
}

#[test]
fn largest_integer_is_accepted() {
    let toks = lex("4294967295").into_tokens();
    assert_eq!(toks[0].kind, TokenKind::Integer(4294967295));
    let r = lex("4294967296");
    assert!(r.has_err());
}

#[test]
fn spans_are_byte_offsets() {
    let toks = lex("é + λx").into_tokens();
    assert_eq!(
        toks,
        vec![
            Token { kind: TokenKind::Ident("é".to_string()), span: sp(0, 2) },
            Token { kind: TokenKind::Add, span: sp(3, 4) },
            Token { kind: TokenKind::Ident("λx".to_string()), span: sp(5, 8) },
            Token { kind: TokenKind::EOF, span: sp(5, 8) },
        ]
    );
}

#[test]
fn identifier_with_digits_and_underscores() {
    let toks = lex("x_1 2y").into_tokens();
    assert_eq!(
        kinds(&toks),
        vec![
            TokenKind::Ident("x_1".to_string()),
            TokenKind::Integer(2),
            TokenKind::Ident("y".to_string()),
            TokenKind::EOF,
        ]
    );
}

#[test]
fn underscore_cannot_start_an_identifier() {
    let r = lex("_x");
    let toks = r.tokens().clone();
    assert_eq!(kinds(&toks), vec![TokenKind::Ident("x".to_string()), TokenKind::EOF]);
    assert_eq!(r.into_errors()[0].pos, sp(0, 1));
}

#[test]
fn token_kind_properties() {
    assert_eq!(TokenKind::CmpLtEq.precedence(), 1);
    assert_eq!(TokenKind::Sub.precedence(), 2);
    assert_eq!(TokenKind::Div.precedence(), 3);
    assert_eq!(TokenKind::Pow.precedence(), 4);
    assert_eq!(TokenKind::OpenParen.precedence(), 0);
    assert!(TokenKind::CmpEq.is_binary_op());
    assert!(!TokenKind::Eq.is_binary_op());
    assert!(TokenKind::Sub.is_unary_op());
    assert!(!TokenKind::Mul.is_unary_op());
    assert_eq!(TokenKind::Integer(42).to_string(), "42");
    assert_eq!(TokenKind::OpenCurly.to_string(), "{");
    assert_eq!(TokenKind::EOF.to_string(), "EOF");
    assert!(TokenKind::Ident("a".to_string()).same_as(&TokenKind::Ident("a".to_string())));
    assert!(!TokenKind::Ident("a".to_string()).same_as(&TokenKind::Ident("b".to_string())));
    let t = Token { kind: TokenKind::CmpGtEq, span: sp(1, 3) };
    assert_eq!(t.to_string(), ">=");
}

#[test]
fn non_ascii_letters_follow_unicode_identifier_rules() {
    let r = lex("xé €y");
    let toks = r.tokens().clone();
    assert_eq!(
        kinds(&toks),
        vec![TokenKind::Ident("xé".to_string()), TokenKind::Ident("y".to_string()), TokenKind::EOF]
    );
    let errs = r.into_errors();
    assert_eq!(errs.len(), 1);
    assert_eq!(errs[0].pos, sp(4, 7));
}
