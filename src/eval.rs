use vstd::prelude::*;

use crate::ast::{
    lemma_view_args_index, lemma_view_args_len, view_args, AstKind, Node, NodeKind, AST,
};
use crate::athena::{get_builtin, lookup, str_eq, BuiltinFn, BuiltinOp};
use crate::token::{Kind, Token, TokenKind};

verus! {

/// An expression over the operations of the algebra engine: what evaluating a
/// syntax tree asks the engine to compute.
#[derive(Debug, PartialEq, Eq)]
pub enum EngineExpr {
    /// The engine's "undefined" value.
    Undef,
    /// The engine's constant pi.
    Pi,
    /// A free symbol.
    Var(String),
    /// An exact rational number with this integer value.
    Rational(u32),
    Add(Box<EngineExpr>, Box<EngineExpr>),
    Sub(Box<EngineExpr>, Box<EngineExpr>),
    Mul(Box<EngineExpr>, Box<EngineExpr>),
    Div(Box<EngineExpr>, Box<EngineExpr>),
    Pow(Box<EngineExpr>, Box<EngineExpr>),
    Neg(Box<EngineExpr>),
    /// A builtin operation on its arguments, which are evaluated first, in order.
    Call(BuiltinOp, Vec<EngineExpr>),
}

/// The mathematical value of an engine expression.
pub enum Sym {
    Undef,
    Pi,
    Var(Seq<char>),
    Rational(u32),
    Add(Box<Sym>, Box<Sym>),
    Sub(Box<Sym>, Box<Sym>),
    Mul(Box<Sym>, Box<Sym>),
    Div(Box<Sym>, Box<Sym>),
    Pow(Box<Sym>, Box<Sym>),
    Neg(Box<Sym>),
    Call(BuiltinOp, Seq<Sym>),
}

pub open spec fn view_exprs(es: Seq<EngineExpr>) -> Seq<Sym>
    decreases es,
{
    if es.len() == 0 {
        seq![]
    } else {
        view_exprs(es.drop_last()).push(es.last().view())
    }
}

impl View for EngineExpr {
    type V = Sym;

    open spec fn view(&self) -> Sym
        decreases self,
    {
        match self {
            EngineExpr::Undef => Sym::Undef,
            EngineExpr::Pi => Sym::Pi,
            EngineExpr::Var(name) => Sym::Var(name@),
            EngineExpr::Rational(v) => Sym::Rational(*v),
            EngineExpr::Add(a, b) => Sym::Add(Box::new((**a).view()), Box::new((**b).view())),
            EngineExpr::Sub(a, b) => Sym::Sub(Box::new((**a).view()), Box::new((**b).view())),
            EngineExpr::Mul(a, b) => Sym::Mul(Box::new((**a).view()), Box::new((**b).view())),
            EngineExpr::Div(a, b) => Sym::Div(Box::new((**a).view()), Box::new((**b).view())),
            EngineExpr::Pow(a, b) => Sym::Pow(Box::new((**a).view()), Box::new((**b).view())),
            EngineExpr::Neg(a) => Sym::Neg(Box::new((**a).view())),
            EngineExpr::Call(op, args) => Sym::Call(*op, view_exprs(args@)),
        }
    }
}

/// A binary operator applied by the engine; comparisons have no engine operation.
pub open spec fn binary_sym(op: Kind, l: Sym, r: Sym) -> Sym {
    match op {
        Kind::Add => Sym::Add(Box::new(l), Box::new(r)),
        Kind::Sub => Sym::Sub(Box::new(l), Box::new(r)),
        Kind::Mul => Sym::Mul(Box::new(l), Box::new(r)),
        Kind::Div => Sym::Div(Box::new(l), Box::new(r)),
        Kind::Pow => Sym::Pow(Box::new(l), Box::new(r)),
        _ => Sym::Undef,
    }
}

/// A prefix operator: `+` leaves its operand as it is, `-` negates it.
pub open spec fn unary_sym(op: Kind, v: Sym) -> Sym {
    match op {
        Kind::Add => v,
        Kind::Sub => Sym::Neg(Box::new(v)),
        _ => Sym::Undef,
    }
}

/// A name: `undef` and `pi` are the engine's constants, any other name a free symbol.
pub open spec fn var_sym(name: Seq<char>) -> Sym {
    if name == "undef"@ {
        Sym::Undef
    } else if name == "pi"@ {
        Sym::Pi
    } else {
        Sym::Var(name)
    }
}

/// A call of `op` on `args`; with the wrong number of arguments, undefined.
pub open spec fn apply_sym(op: BuiltinOp, args: Seq<Sym>) -> Sym {
    if args.len() == op.spec_params().len() {
        Sym::Call(op, args)
    } else {
        Sym::Undef
    }
}

/// A call by name; an unknown name is undefined.
pub open spec fn call_sym(name: Seq<char>, args: Seq<Sym>) -> Sym {
    match lookup(name) {
        Some(op) => apply_sym(op, args),
        None => Sym::Undef,
    }
}

/// What evaluating a tree asks of the engine.
pub open spec fn lower(n: Node) -> Sym
    decreases n,
{
    match n.kind {
        NodeKind::Ident(name) => var_sym(name),
        NodeKind::Integer(v) => Sym::Rational(v),
        NodeKind::Binary(op, l, r) => binary_sym(op.kind, lower(*l), lower(*r)),
        NodeKind::Unary(op, e) => unary_sym(op.kind, lower(*e)),
        NodeKind::ParenExpr(_, _, e) => lower(*e),
        NodeKind::Func(name, args) => call_sym(name, lower_all(args)),
        NodeKind::ErrorNode(_) => Sym::Undef,
    }
}

pub open spec fn lower_all(args: Seq<Node>) -> Seq<Sym>
    decreases args,
{
    if args.len() == 0 {
        seq![]
    } else {
        lower_all(args.drop_last()).push(lower(args.last()))
    }
}

impl BuiltinFn {
    /// This function applied to `args`; with the wrong number of arguments, undefined.
    pub fn call(&self, args: Vec<EngineExpr>) -> (r: EngineExpr)
        ensures
            r@ == apply_sym(self.op, view_exprs(args@)),
    {
        proof {
            lemma_view_exprs_len(args@);
        }
        if args.len() == self.n_params() {
            EngineExpr::Call(self.op, args)
        } else {
            EngineExpr::Undef
        }
    }
}

proof fn lemma_view_exprs_len(es: Seq<EngineExpr>)
    ensures
        view_exprs(es).len() == es.len(),
    decreases es.len(),
{
    if es.len() > 0 {
        lemma_view_exprs_len(es.drop_last());
        assert(view_exprs(es) == view_exprs(es.drop_last()).push(es.last()@));
    }
}

/// The engine operation for a binary operator.
pub fn eval_binary(op: &Token, lhs: EngineExpr, rhs: EngineExpr) -> (r: EngineExpr)
    ensures
        r@ == binary_sym(op.kind@, lhs@, rhs@),
{
    match op.kind {
        TokenKind::Add => EngineExpr::Add(Box::new(lhs), Box::new(rhs)),
        TokenKind::Sub => EngineExpr::Sub(Box::new(lhs), Box::new(rhs)),
        TokenKind::Mul => EngineExpr::Mul(Box::new(lhs), Box::new(rhs)),
        TokenKind::Div => EngineExpr::Div(Box::new(lhs), Box::new(rhs)),
        TokenKind::Pow => EngineExpr::Pow(Box::new(lhs), Box::new(rhs)),
        _ => EngineExpr::Undef,
    }
}

/// The engine operation for a prefix operator.
pub fn eval_unary(op: &Token, val: EngineExpr) -> (r: EngineExpr)
    ensures
        r@ == unary_sym(op.kind@, val@),
{
    match op.kind {
        TokenKind::Add => val,
        TokenKind::Sub => EngineExpr::Neg(Box::new(val)),
        _ => EngineExpr::Undef,
    }
}

/// The value a name stands for.
fn eval_var(var: &str) -> (r: EngineExpr)
    ensures
        r@ == var_sym(var@),
{
    if str_eq(var, "undef") {
        EngineExpr::Undef
    } else if str_eq(var, "pi") {
        EngineExpr::Pi
    } else {
        EngineExpr::Var(var.to_owned())
    }
}

/// A call of the builtin called `name` on evaluated arguments.
fn call_builtin(name: &str, args: Vec<EngineExpr>) -> (r: EngineExpr)
    ensures
        r@ == call_sym(name@, view_exprs(args@)),
{
    match get_builtin(name) {
        Some(builtin) => builtin.call(args),
        None => EngineExpr::Undef,
    }
}

/// Evaluates the arguments in order, then calls the builtin.
fn eval_func(name: &str, args: &Vec<AST>) -> (r: EngineExpr)
    ensures
        r@ == call_sym(name@, lower_all(view_args(args@))),
    decreases args, 0int,
{
    let mut vals: Vec<EngineExpr> = Vec::new();
    let mut i: usize = 0;
    proof {
        lemma_view_args_len(args@);
    }
    while i < args.len()
        invariant
            i <= args.len(),
            view_args(args@).len() == args.len(),
            view_exprs(vals@) == lower_all(view_args(args@).subrange(0, i as int)),
        decreases args.len() - i,
    {
        proof {
            lemma_view_args_index(args@, i as int);
            assert(decreases_to!(args => args[i as int]));
        }
        let v = eval_node(&args[i]);
        let ghost before = vals@;
        vals.push(v);
        proof {
            let sub = view_args(args@).subrange(0, i + 1);
            assert(sub.drop_last() =~= view_args(args@).subrange(0, i as int));
            assert(vals@.drop_last() =~= before);
        }
        i = i + 1;
    }
    assert(view_args(args@).subrange(0, args.len() as int) =~= view_args(args@));
    call_builtin(name, vals)
}

fn eval_node(ast: &AST) -> (r: EngineExpr)
    ensures
        r@ == lower(ast@),
    decreases ast, 1int,
{
    match &*ast.kind {
        AstKind::Ident(var) => eval_var(var.as_str()),
        AstKind::Integer(i) => EngineExpr::Rational(*i),
        AstKind::Binary(op, lhs, rhs) => {
            let l = eval_node(lhs);
            let r = eval_node(rhs);
            eval_binary(op, l, r)
        },
        AstKind::Unary(op, val) => {
            let v = eval_node(val);
            eval_unary(op, v)
        },
        AstKind::ParenExpr(_, _, expr) => eval_node(expr),
        AstKind::ErrorNode(_) => EngineExpr::Undef,
        AstKind::Func(name, args) => eval_func(name.as_str(), args),
    }
}

/// What evaluating `ast` asks the engine to compute; a tree flagged as holding
/// a syntax error is refused before anything is asked.
pub fn eval(ast: &AST) -> (r: Option<EngineExpr>)
    ensures
        r is None <==> ast.has_err,
        r is Some ==> r->0@ == lower(ast@),
{
    if ast.has_err {
        None
    } else {
        Some(eval_node(ast))
    }
}

} // verus!
