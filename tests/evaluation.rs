use athena_lib::athena::{get_builtin, BuiltinOp};
use athena_lib::eval::{eval, eval_binary, eval_unary, EngineExpr};
use athena_lib::lexer::lex;
use athena_lib::parser::{parse_expr, AstFile};
use athena_lib::token::{Token, TokenKind};
use athena_lib::Span;

fn evaluate(code: &str) -> Option<EngineExpr> {
    let tokens = lex(code).into_tokens();
    let mut f = AstFile::from_tokens(tokens);
    let ast = parse_expr(&mut f);
    eval(&ast)
}

fn var(name: &str) -> EngineExpr {
    EngineExpr::Var(name.to_string())
}

fn b(e: EngineExpr) -> Box<EngineExpr> {
    Box::new(e)
}

#[test]
fn sine_is_one_call_with_one_argument() {
    assert_eq!(evaluate("sin(x)"), Some(EngineExpr::Call(BuiltinOp::Sin, vec![var("x")])));
}

#[test]
fn wrong_arity_is_undefined() {
    assert_eq!(evaluate("sin(x, y)"), Some(EngineExpr::Undef));
    assert_eq!(evaluate("deriv(x)"), Some(EngineExpr::Undef));
    assert_eq!(evaluate("sin()"), Some(EngineExpr::Undef));
}

#[test]
fn unknown_function_is_undefined() {
    assert_eq!(evaluate("nosuch(1)"), Some(EngineExpr::Undef));
}

#[test]
fn erroneous_tree_is_refused() {
    assert_eq!(evaluate("(1 +* 2)"), None);
    assert_eq!(evaluate(""), None);
}

#[test]
fn arithmetic_lowers_to_engine_operations() {
    assert_eq!(
        evaluate("2 * 3 + x"),
        Some(EngineExpr::Add(
            b(EngineExpr::Mul(b(EngineExpr::Rational(2)), b(EngineExpr::Rational(3)))),
            b(var("x"))
        ))
    );
    assert_eq!(
        evaluate("(a - b) / c ^ 2"),
        Some(EngineExpr::Div(
            b(EngineExpr::Sub(b(var("a")), b(var("b")))),
            b(EngineExpr::Pow(b(var("c")), b(EngineExpr::Rational(2))))
        ))
    );
}

#[test]
fn prefix_operators() {
    assert_eq!(evaluate("-x"), Some(EngineExpr::Neg(b(var("x")))));
    assert_eq!(evaluate("+x"), Some(var("x")));
}

#[test]
fn named_constants() {
    assert_eq!(evaluate("pi"), Some(EngineExpr::Pi));
    assert_eq!(evaluate("undef"), Some(EngineExpr::Undef));
    assert_eq!(evaluate("pie"), Some(var("pie")));
}

#[test]
fn comparison_has_no_engine_operation() {
    assert_eq!(evaluate("1 < 2"), Some(EngineExpr::Undef));
}

#[test]
fn arguments_are_evaluated_in_order() {
    assert_eq!(
        evaluate("common_factor(2 * x, -y)"),
        Some(EngineExpr::Call(
            BuiltinOp::CommonFactor,
            vec![
                EngineExpr::Mul(b(EngineExpr::Rational(2)), b(var("x"))),
                EngineExpr::Neg(b(var("y"))),
            ]
        ))
    );
}

#[test]
fn operator_helpers() {
    let op = Token { kind: TokenKind::Pow, span: Span { start: 1, end: 2 } };
    assert_eq!(
        eval_binary(&op, var("a"), EngineExpr::Rational(3)),
        EngineExpr::Pow(b(var("a")), b(EngineExpr::Rational(3)))
    );
    let eq = Token { kind: TokenKind::CmpEq, span: Span { start: 1, end: 3 } };
    assert_eq!(eval_binary(&eq, var("a"), var("b")), EngineExpr::Undef);
    let neg = Token { kind: TokenKind::Sub, span: Span { start: 0, end: 1 } };
    assert_eq!(eval_unary(&neg, var("a")), EngineExpr::Neg(b(var("a"))));
}

#[test]
fn builtin_registry() {
    let d = get_builtin("deriv").expect("deriv is a builtin");
    assert_eq!(d.op, BuiltinOp::Deriv);
    assert_eq!(d.name(), "deriv");
    assert_eq!(d.params(), vec!["f", "x"]);
    assert_eq!(d.n_params(), 2);
    assert_eq!(d.to_string(), "deriv(f, x)");
    assert_eq!(get_builtin("sqrt").unwrap().to_string(), "sqrt(x)");
    assert_eq!(get_builtin("free_of").unwrap().params(), vec!["expr", "x"]);
    assert!(get_builtin("nosuch").is_none());
    assert!(get_builtin("Sin").is_none());
    let s = get_builtin("sin").unwrap();
    assert_eq!(s.call(vec![var("x")]), EngineExpr::Call(BuiltinOp::Sin, vec![var("x")]));
    assert_eq!(s.call(vec![]), EngineExpr::Undef);
}

#[test]
fn every_builtin_is_found_by_its_name() {
    for op in athena_lib::athena::builtin_ops() {
        let f = get_builtin(op.name()).unwrap();
        assert_eq!(f.op, op);
    }
    assert_eq!(athena_lib::athena::builtin_ops().len(), 24);
}

#[test]
fn session_texts() {
    let ctx = athena_lib::context::AthenaContext::new();
    let help = ctx.help();
    assert_eq!(
        help,
        "help      - print out this message\n\
         functions - list all available functions\n\
         clear     - clear the screen (Ctrl-l)\n\
         dark      - dark mode\n\
         light     - light mode"
    );
    let start = ctx.startup();
    assert!(start.starts_with(athena_lib::context::HEADER));
    assert!(start.ends_with(&help));
    let list = ctx.list_builtins();
    assert_eq!(list.lines().count(), 24);
    assert!(list.starts_with("sin(x)\narcsin(x)\n"));
    assert!(list.contains("\ncommon_factor(a, b)\n"));
    assert!(list.ends_with("free_of(expr, x)\n"));
}
