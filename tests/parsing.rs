use athena_lib::ast::{AstErrorKind, AstKind, AST};
use athena_lib::error::{ErrCode, Error};
use athena_lib::lexer::lex;
use athena_lib::merge_span;
use athena_lib::parser::{parse_expr, AstFile};
use athena_lib::text::decimal_string;
use athena_lib::token::{Token, TokenKind};
use athena_lib::Span;

fn parse(code: &str) -> (AST, Vec<Error>) {
    let tokens = lex(code).into_tokens();
    let mut f = AstFile::from_tokens(tokens);
    let ast = parse_expr(&mut f);
    (ast, f.errors)
}

fn shown(code: &str) -> String {
    let (ast, errors) = parse(code);
    assert!(errors.is_empty(), "unexpected errors for {code:?}: {errors:?}");
    ast.to_string()
}

#[test]
fn multiplication_binds_tighter_than_addition() {
    let (ast, errors) = parse("1 + 2 * 3");
    assert!(errors.is_empty());
    match &*ast.kind {
        AstKind::Binary(op, l, r) => {
            assert_eq!(op.kind, TokenKind::Add);
            assert_eq!(*l.kind, AstKind::Integer(1));
            match &*r.kind {
                AstKind::Binary(op2, a, b) => {
                    assert_eq!(op2.kind, TokenKind::Mul);
                    assert_eq!(*a.kind, AstKind::Integer(2));
                    assert_eq!(*b.kind, AstKind::Integer(3));
                }
                other => panic!("expected a product, got {other:?}"),
            }
        }
        other => panic!("expected a sum, got {other:?}"),
    }
    assert_eq!(ast.to_string(), "(1 + (2 * 3))");
}

#[test]
fn power_groups_to_the_left() {
    assert_eq!(shown("2 ^ 3 ^ 2"), "((2 ^ 3) ^ 2)");
}

#[test]
fn subtraction_and_division_group_to_the_left() {
    assert_eq!(shown("1 - 2 - 3"), "((1 - 2) - 3)");
    assert_eq!(shown("8 / 4 / 2"), "((8 / 4) / 2)");
}

#[test]
fn comparison_binds_loosest() {
    assert_eq!(shown("a + 1 < b * 2"), "((a + 1) < (b * 2))");
}

#[test]
fn prefix_operator_applies_to_one_operand() {
    assert_eq!(shown("-x ^ 2"), "((- x) ^ 2)");
    assert_eq!(shown("+3"), "(+ 3)");
}

#[test]
fn parentheses_are_kept() {
    assert_eq!(shown("(1 + 2) * 3"), "(( (1 + 2) ) * 3)");
}

#[test]
fn function_calls() {
    let (ast, errors) = parse("sin(x)");
    assert!(errors.is_empty());
    match &*ast.kind {
        AstKind::Func(name, args) => {
            assert_eq!(name, "sin");
            assert_eq!(args.len(), 1);
            assert_eq!(*args[0].kind, AstKind::Ident("x".to_string()));
        }
        other => panic!("expected a call, got {other:?}"),
    }
    assert_eq!(ast.span, Span { start: 0, end: 6 });
    assert_eq!(shown("deriv(x^2, x)"), "deriv((x ^ 2), x)");
    assert_eq!(shown("f()"), "f()");
}

#[test]
fn paren_span_covers_delimiters() {
    let (ast, errors) = parse("(x + 2)^2");
    assert!(errors.is_empty());
    match &*ast.kind {
        AstKind::Binary(op, l, _) => {
            assert_eq!(op.kind, TokenKind::Pow);
            assert!(matches!(*l.kind, AstKind::ParenExpr(_, _, _)));
            assert_eq!(l.span, Span { start: 0, end: 7 });
        }
        other => panic!("expected a power, got {other:?}"),
    }
    assert_eq!(ast.span, Span { start: 0, end: 9 });
}

#[test]
fn bad_operand_is_contained() {
    let (ast, errors) = parse("(1 +* 2)");
    assert!(!errors.is_empty());
    assert!(ast.has_err);
    assert_eq!(errors[0].code, ErrCode::Syntax);
    assert_eq!(errors[0].pos, Span { start: 4, end: 5 });
    assert_eq!(errors[0].msg, "bad rhs for binary '+': *");
}

#[test]
fn error_count_is_capped() {
    let (ast, errors) = parse("* / ^ ) , *");
    assert!(ast.has_err);
    assert_eq!(errors.len(), 1);
    let (_, errors) = parse("(1 +* 2) + (3 -/ 4) * (5 ^)");
    assert_eq!(errors.len(), 1);
}

#[test]
fn bad_operand_under_prefix_operator() {
    let (ast, errors) = parse("-)");
    assert!(ast.has_err);
    assert_eq!(errors.len(), 1);
    assert_eq!(errors[0].msg, "bad operand for unary '-': )");
    match &*ast.kind {
        AstKind::Unary(op, e) => {
            assert_eq!(op.kind, TokenKind::Sub);
            assert_eq!(*e.kind, AstKind::ErrorNode(AstErrorKind::BadExpr(TokenKind::CloseParen)));
            assert!(e.has_err);
        }
        other => panic!("expected a negation, got {other:?}"),
    }
}

#[test]
fn nothing_to_parse() {
    let (ast, errors) = parse("");
    assert!(ast.has_err);
    assert_eq!(errors.len(), 1);
    assert_eq!(errors[0].msg, "could not parse expression: EOF");
}

#[test]
fn missing_close_paren_is_reported() {
    let (ast, errors) = parse("(1");
    assert_eq!(errors.len(), 1);
    assert_eq!(errors[0].msg, "expected token: ')', found: EOF");
    assert!(!ast.has_err);
}

#[test]
fn error_in_argument_flags_the_call() {
    let (ast, errors) = parse("sin(*)");
    assert_eq!(errors.len(), 1);
    assert!(ast.has_err);
}

#[test]
fn empty_token_stream_gives_zero() {
    let mut f = AstFile::from_tokens(vec![]);
    let ast = parse_expr(&mut f);
    assert_eq!(*ast.kind, AstKind::Integer(0));
    assert_eq!(ast.span, Span { start: 0, end: 0 });
    assert!(f.errors.is_empty());
}

#[test]
fn missing_end_marker_is_added() {
    let toks = vec![
        Token { kind: TokenKind::OpenParen, span: Span { start: 0, end: 1 } },
        Token { kind: TokenKind::Integer(7), span: Span { start: 1, end: 2 } },
    ];
    let mut f = AstFile::from_tokens(toks);
    let ast = parse_expr(&mut f);
    assert_eq!(ast.to_string(), "( 7 EOF");
    assert_eq!(f.errors.len(), 1);
}

/// The tree without spans and without its parenthesis nodes.
fn shape(a: &AST) -> String {
    match &*a.kind {
        AstKind::Ident(n) => n.clone(),
        AstKind::Integer(v) => v.to_string(),
        AstKind::Binary(op, l, r) => format!("[{} {} {}]", shape(l), op.kind.to_string(), shape(r)),
        AstKind::Unary(op, e) => format!("[{} {}]", op.kind.to_string(), shape(e)),
        AstKind::ParenExpr(_, _, e) => shape(e),
        AstKind::Func(n, args) => {
            let args: Vec<String> = args.iter().map(shape).collect();
            format!("{n}[{}]", args.join(" "))
        }
        AstKind::ErrorNode(_) => "!".to_string(),
    }
}

#[test]
fn reparsing_the_rendering_gives_the_same_shape() {
    for code in ["1 + 2 * 3", "-(a - b) / c ^ 2", "sin(x) + deriv(x ^ 2, x)", "((y))", "a < -b"] {
        let (first, errors) = parse(code);
        assert!(errors.is_empty());
        let (second, errors) = parse(&first.to_string());
        assert!(errors.is_empty());
        assert_eq!(shape(&first), shape(&second));
    }
}

#[test]
fn tree_constructors() {
    let one = AST::new(AstKind::Integer(1), Span { start: 0, end: 1 });
    let x = AST::new(AstKind::Ident("x".to_string()), Span { start: 4, end: 5 });
    assert!(!one.has_err);
    let sum = AST::binary(Token { kind: TokenKind::Add, span: Span { start: 2, end: 3 } }, one, x);
    assert_eq!(sum.span, Span { start: 0, end: 5 });
    let neg = AST::unary(Token { kind: TokenKind::Sub, span: Span { start: 0, end: 1 } }, sum);
    assert_eq!(neg.to_string(), "(- (1 + x))");
    let bad = AST::err(athena_lib::ast::AstError::new(
        AstErrorKind::BadExpr(TokenKind::Comma),
        Span { start: 3, end: 4 },
    ));
    assert!(bad.has_err);
    let call = AST::new(AstKind::Func("f".to_string(), vec![bad]), Span { start: 0, end: 6 });
    assert!(call.has_err);
}

#[test]
fn errors_and_spans() {
    let s = Span { start: 3, end: 5 };
    let e = ErrCode::Syntax.to_err(&s, "oops".to_string());
    assert_eq!(e.pos, s);
    assert_eq!(e.msg, "oops");
    assert_eq!(e.code, ErrCode::Syntax);
    let e = Error::new(s, "plain".to_string());
    assert_eq!(e.code, ErrCode::Unspecified);
    assert_eq!(ErrCode::default(), ErrCode::Unspecified);
    assert_eq!(ErrCode::Lexer.to_string(), "Lexer");
    assert_eq!(ErrCode::Unspecified.to_string(), "...");
    let m = merge_span(&Span { start: 4, end: 9 }, &Span { start: 2, end: 6 });
    assert_eq!(m, Span { start: 2, end: 9 });
}

#[test]
fn decimal_rendering() {
    assert_eq!(decimal_string(0), "0");
    assert_eq!(decimal_string(907), "907");
    assert_eq!(decimal_string(4294967295), "4294967295");
}

#[test]
fn parser_accessors() {
    let tokens = lex("(1 +* 2)").into_tokens();
    let mut f = AstFile::from_tokens(tokens);
    assert!(f.errors().is_empty());
    assert_eq!(f.tokens().len(), 7);
    let ast = parse_expr(&mut f);
    assert!(ast.has_err);
    assert_eq!(f.errors().len(), 1);
    let errors = f.into_errors();
    assert_eq!(errors[0].code, ErrCode::Syntax);
    assert_eq!(errors[0].pos, Span { start: 4, end: 5 });
}

#[test]
fn one_error_reported_for_two_bad_operands() {
    let (ast, errors) = parse("-* + *");
    assert!(ast.has_err);
    assert_eq!(errors.len(), 1);
    assert_eq!(errors[0].pos, Span { start: 1, end: 2 });
    assert_eq!(errors[0].code, ErrCode::Syntax);
}
