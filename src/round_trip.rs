use vstd::prelude::*;

use crate::ast::{
    binary_node, func_node, paren_node, render, render_args, unary_node, Node, NodeKind,
};
use crate::lexer::{
    digits_len, digits_value, ident_continue, ident_len, ident_start, is_digit, lex_tokens,
    lexeme_at, scan_tokens, single_char_kind, Lexeme,
};
use crate::parser::{
    advance, binary_loop_spec, expect, or_recover, parse_args_spec, parse_binary_spec,
    parse_expr_spec, parse_func_args_spec, parse_operand_spec, parse_tokens, parse_unary_spec,
    sealed, start_state, valid, PState,
};
use crate::text::{decimal, digit_char};
use crate::token::{Kind, Tok};

verus! {

/// Whether `name` is spelled as the tokenizer reads an identifier.
pub open spec fn valid_ident(name: Seq<char>) -> bool {
    &&& name.len() > 0
    &&& ident_start(name[0])
    &&& forall|i: int| 1 <= i < name.len() ==> ident_continue(#[trigger] name[i])
}

/// A tree made only of what its rendering shows: no error placeholders,
/// operators of the right class, parentheses that are parentheses, and names
/// spelled as identifiers.
pub open spec fn clean(n: Node) -> bool
    decreases n,
{
    match n.kind {
        NodeKind::Ident(name) => valid_ident(name),
        NodeKind::Integer(_) => true,
        NodeKind::Binary(op, l, r) => op.kind.is_binary_op() && clean(*l) && clean(*r),
        NodeKind::Unary(op, e) => op.kind.is_unary_op() && clean(*e),
        NodeKind::ParenExpr(o, c, e) => o.kind == Kind::OpenParen && c.kind == Kind::CloseParen
            && clean(*e),
        NodeKind::Func(name, args) => valid_ident(name) && clean_all(args),
        NodeKind::ErrorNode(_) => false,
    }
}

pub open spec fn clean_all(args: Seq<Node>) -> bool
    decreases args,
{
    if args.len() == 0 {
        true
    } else {
        clean(args[0]) && clean_all(args.drop_first())
    }
}

/// The structure of a tree: what is left when spans, error flags and
/// parenthesis nodes are forgotten.
pub enum Shape {
    Ident(Seq<char>),
    Integer(u32),
    Binary(Kind, Box<Shape>, Box<Shape>),
    Unary(Kind, Box<Shape>),
    Func(Seq<char>, Seq<Shape>),
    Bad(Kind),
}

pub open spec fn shape(n: Node) -> Shape
    decreases n,
{
    match n.kind {
        NodeKind::Ident(name) => Shape::Ident(name),
        NodeKind::Integer(v) => Shape::Integer(v),
        NodeKind::Binary(op, l, r) => Shape::Binary(op.kind, Box::new(shape(*l)), Box::new(shape(*r))),
        NodeKind::Unary(op, e) => Shape::Unary(op.kind, Box::new(shape(*e))),
        NodeKind::ParenExpr(_, _, e) => shape(*e),
        NodeKind::Func(name, args) => Shape::Func(name, shape_all(args)),
        NodeKind::ErrorNode(k) => Shape::Bad(k),
    }
}

pub open spec fn shape_all(args: Seq<Node>) -> Seq<Shape>
    decreases args,
{
    if args.len() == 0 {
        seq![]
    } else {
        seq![shape(args[0])] + shape_all(args.drop_first())
    }
}

/// The kinds of the tokens of a tree's rendering.
pub open spec fn rtoks(n: Node) -> Seq<Kind>
    decreases n,
{
    match n.kind {
        NodeKind::Ident(name) => seq![Kind::Ident(name)],
        NodeKind::Integer(v) => seq![Kind::Integer(v)],
        NodeKind::Binary(op, l, r) => seq![Kind::OpenParen] + rtoks(*l) + seq![op.kind] + rtoks(*r)
            + seq![Kind::CloseParen],
        NodeKind::Unary(op, e) => seq![Kind::OpenParen, op.kind] + rtoks(*e) + seq![Kind::CloseParen],
        NodeKind::ParenExpr(o, c, e) => seq![o.kind] + rtoks(*e) + seq![c.kind],
        NodeKind::Func(name, args) => seq![Kind::Ident(name), Kind::OpenParen] + rtoks_args(args)
            + seq![Kind::CloseParen],
        NodeKind::ErrorNode(_) => seq![],
    }
}

/// The kinds of the tokens of arguments rendered with commas between them.
pub open spec fn rtoks_args(args: Seq<Node>) -> Seq<Kind>
    decreases args,
{
    if args.len() == 0 {
        seq![]
    } else if args.len() == 1 {
        rtoks(args[0])
    } else {
        rtoks(args[0]) + seq![Kind::Comma] + rtoks_args(args.drop_first())
    }
}

/// Whether the tokens from `p` on begin with the kinds `ks`.
pub open spec fn kinds_at(ts: Seq<Tok>, p: int, ks: Seq<Kind>) -> bool {
    &&& 0 <= p
    &&& p + ks.len() <= ts.len()
    &&& forall|i: int| 0 <= i < ks.len() ==> ts[p + i].kind == #[trigger] ks[i]
}

/// A token that ends an operand and no operator continues: `)`, `,`, the end marker, ...
pub open spec fn closes(k: Kind) -> bool {
    k.precedence() == 0 && k != Kind::OpenParen
}

proof fn lemma_kinds_split(ts: Seq<Tok>, p: int, a: Seq<Kind>, b: Seq<Kind>)
    requires
        kinds_at(ts, p, a + b),
    ensures
        kinds_at(ts, p, a),
        kinds_at(ts, p + a.len(), b),
{
    assert forall|i: int| 0 <= i < a.len() implies ts[p + i].kind == #[trigger] a[i] by {
        assert((a + b)[i] == a[i]);
    }
    assert forall|i: int| 0 <= i < b.len() implies ts[p + a.len() + i].kind == #[trigger] b[i] by {
        assert((a + b)[a.len() + i] == b[i]);
    }
}

proof fn lemma_kind_at(ts: Seq<Tok>, p: int, ks: Seq<Kind>, i: int)
    requires
        kinds_at(ts, p, ks),
        0 <= i < ks.len(),
    ensures
        ts[p + i].kind == ks[i],
{
}

proof fn lemma_rtoks_first(t: Node)
    requires
        clean(t),
    ensures
        rtoks(t).len() > 0,
        rtoks(t)[0] is Ident || rtoks(t)[0] is Integer || rtoks(t)[0] == Kind::OpenParen,
{
}

proof fn lemma_shape_all_push(acc: Seq<Node>, n: Node)
    ensures
        shape_all(acc.push(n)) == shape_all(acc) + seq![shape(n)],
    decreases acc.len(),
{
    if acc.len() == 0 {
        assert(acc.push(n).drop_first() =~= Seq::<Node>::empty());
        assert(shape_all(Seq::<Node>::empty()) == Seq::<Shape>::empty());
        assert(shape_all(acc) == Seq::<Shape>::empty());
        assert(shape_all(acc.push(n)) =~= seq![shape(n)]);
    } else {
        assert(acc.push(n).drop_first() =~= acc.drop_first().push(n));
        lemma_shape_all_push(acc.drop_first(), n);
        assert(shape_all(acc.push(n)) =~= shape_all(acc) + seq![shape(n)]);
    }
}

pub open spec fn moved(st: PState, n: nat) -> PState {
    PState { pos: st.pos + n, errs: st.errs }
}

/// An operand position holding a rendered tree reads back a tree of the same shape,
/// consuming exactly its tokens and reporting nothing.
proof fn lemma_operand(ts: Seq<Tok>, st: PState, t: Node)
    requires
        clean(t),
        kinds_at(ts, st.pos, rtoks(t)),
        st.pos + rtoks(t).len() < ts.len(),
        ts[st.pos + rtoks(t).len()].kind != Kind::OpenParen,
    ensures
        parse_operand_spec(ts, st).0 is Ok,
        shape(parse_operand_spec(ts, st).0->Ok_0) == shape(t),
        parse_operand_spec(ts, st).1 == moved(st, rtoks(t).len()),
    decreases t, 1int,
{
    let p = st.pos;
    let k = rtoks(t);
    lemma_rtoks_first(t);
    lemma_kind_at(ts, p, k, 0);
    match t.kind {
        NodeKind::Binary(..) => lemma_operand_binary(ts, st, t),
        NodeKind::Unary(..) => lemma_operand_unary(ts, st, t),
        NodeKind::ParenExpr(..) => lemma_operand_paren(ts, st, t),
        NodeKind::Func(..) => lemma_operand_call(ts, st, t),
        _ => {},
    }
}

#[verifier::spinoff_prover]
proof fn lemma_operand_binary(ts: Seq<Tok>, st: PState, t: Node)
    requires
        t.kind is Binary,
        clean(t),
        kinds_at(ts, st.pos, rtoks(t)),
        st.pos + rtoks(t).len() < ts.len(),
        ts[st.pos + rtoks(t).len()].kind != Kind::OpenParen,
    ensures
        parse_operand_spec(ts, st).0 is Ok,
        shape(parse_operand_spec(ts, st).0->Ok_0) == shape(t),
        parse_operand_spec(ts, st).1 == moved(st, rtoks(t).len()),
    decreases t, 0int,
{
    let p = st.pos;
    let k = rtoks(t);
    lemma_rtoks_first(t);
    lemma_kind_at(ts, p, k, 0);
    if let NodeKind::Binary(op, l, r) = t.kind {
            let lk = rtoks(*l);
            let rk = rtoks(*r);
            assert(k == seq![Kind::OpenParen] + (lk + (seq![op.kind] + (rk + seq![Kind::CloseParen]))));
            lemma_kinds_split(ts, p, seq![Kind::OpenParen], lk + (seq![op.kind] + (rk + seq![Kind::CloseParen])));
            lemma_kinds_split(ts, p + 1, lk, seq![op.kind] + (rk + seq![Kind::CloseParen]));
            lemma_kinds_split(ts, p + 1 + lk.len(), seq![op.kind], rk + seq![Kind::CloseParen]);
            lemma_kinds_split(ts, p + 2 + lk.len(), rk, seq![Kind::CloseParen]);
            let st1 = PState { pos: p + 1, errs: st.errs };
            assert(expect(ts, st, Kind::OpenParen) == (ts[p], st1));
            lemma_rtoks_first(*l);
            lemma_rtoks_first(*r);
            lemma_kind_at(ts, p + 1, lk, 0);
            assert(ts[p + 1].kind == lk[0]);
            assert(parse_unary_spec(ts, st1) == parse_operand_spec(ts, st1));
            assert(ts[p + 1 + lk.len()].kind != Kind::OpenParen) by {
                lemma_kind_at(ts, p + 1 + lk.len(), seq![op.kind], 0);
            }
            lemma_operand(ts, st1, *l);
            let lres = parse_operand_spec(ts, st1);
            let l2 = lres.0->Ok_0;
            let s1 = moved(st1, lk.len());
            let op_tok = ts[s1.pos];
            lemma_kind_at(ts, p + 1 + lk.len(), seq![op.kind], 0);
            assert(op_tok.kind == op.kind);
            let q = op.kind.precedence();
            let s2 = PState { pos: s1.pos + 1, errs: st.errs };
            lemma_kind_at(ts, s2.pos, rk, 0);
            assert(parse_unary_spec(ts, s2) == parse_operand_spec(ts, s2));
            lemma_kind_at(ts, p + 2 + lk.len() + rk.len(), seq![Kind::CloseParen], 0);
            lemma_operand(ts, s2, *r);
            let r2 = parse_operand_spec(ts, s2).0->Ok_0;
            let s3 = moved(s2, rk.len());
            assert(ts[s3.pos].kind == Kind::CloseParen);
            assert(binary_loop_spec(ts, s3, r2, (q + 1) as u32) == (Ok::<Node, (Kind, crate::Span)>(r2), s3));
            assert(parse_binary_spec(ts, s2, (q + 1) as u32) == (Ok::<Node, (Kind, crate::Span)>(r2), s3));
            let node = binary_node(op_tok, l2, r2);
            assert(binary_loop_spec(ts, s3, node, 1) == (Ok::<Node, (Kind, crate::Span)>(node), s3));
            assert(binary_loop_spec(ts, s1, l2, 1) == (Ok::<Node, (Kind, crate::Span)>(node), s3));
            assert(parse_binary_spec(ts, st1, 1) == (Ok::<Node, (Kind, crate::Span)>(node), s3));
            assert(parse_expr_spec(ts, st1) == (node, s3));
            let st4 = PState { pos: s3.pos + 1, errs: st.errs };
            assert(expect(ts, s3, Kind::CloseParen) == (ts[s3.pos], st4));
            assert(st4 == moved(st, k.len()));
            assert(parse_operand_spec(ts, st) == (Ok::<Node, (Kind, crate::Span)>(paren_node(ts[p], ts[s3.pos], node)), st4));
            assert(shape(paren_node(ts[p], ts[s3.pos], node)) == shape(node));
            assert(shape(node) == Shape::Binary(op.kind, Box::new(shape(l2)), Box::new(shape(r2))));
            }
}

#[verifier::spinoff_prover]
proof fn lemma_operand_unary(ts: Seq<Tok>, st: PState, t: Node)
    requires
        t.kind is Unary,
        clean(t),
        kinds_at(ts, st.pos, rtoks(t)),
        st.pos + rtoks(t).len() < ts.len(),
        ts[st.pos + rtoks(t).len()].kind != Kind::OpenParen,
    ensures
        parse_operand_spec(ts, st).0 is Ok,
        shape(parse_operand_spec(ts, st).0->Ok_0) == shape(t),
        parse_operand_spec(ts, st).1 == moved(st, rtoks(t).len()),
    decreases t, 0int,
{
    let p = st.pos;
    let k = rtoks(t);
    lemma_rtoks_first(t);
    lemma_kind_at(ts, p, k, 0);
    if let NodeKind::Unary(op, e) = t.kind {
            let ek = rtoks(*e);
            assert(k == seq![Kind::OpenParen] + (seq![op.kind] + (ek + seq![Kind::CloseParen])));
            lemma_kinds_split(ts, p, seq![Kind::OpenParen], seq![op.kind] + (ek + seq![Kind::CloseParen]));
            lemma_kinds_split(ts, p + 1, seq![op.kind], ek + seq![Kind::CloseParen]);
            lemma_kinds_split(ts, p + 2, ek, seq![Kind::CloseParen]);
            let st1 = PState { pos: p + 1, errs: st.errs };
            assert(expect(ts, st, Kind::OpenParen) == (ts[p], st1));
            let op_tok = ts[p + 1];
            lemma_kind_at(ts, p + 1, seq![op.kind], 0);
            assert(op_tok.kind == op.kind);
            lemma_kind_at(ts, p + 2 + ek.len(), seq![Kind::CloseParen], 0);
            let s1 = PState { pos: p + 2, errs: st.errs };
            lemma_operand(ts, s1, *e);
            let e2 = parse_operand_spec(ts, s1).0->Ok_0;
            let s2 = moved(s1, ek.len());
            assert(ts[s2.pos].kind == Kind::CloseParen);
            let u = unary_node(op_tok, e2);
            assert(parse_unary_spec(ts, st1) == (Ok::<Node, (Kind, crate::Span)>(u), s2));
            assert(binary_loop_spec(ts, s2, u, 1) == (Ok::<Node, (Kind, crate::Span)>(u), s2));
            assert(parse_binary_spec(ts, st1, 1) == (Ok::<Node, (Kind, crate::Span)>(u), s2));
            assert(parse_expr_spec(ts, st1) == (u, s2));
            let st4 = PState { pos: s2.pos + 1, errs: st.errs };
            assert(expect(ts, s2, Kind::CloseParen) == (ts[s2.pos], st4));
            assert(parse_operand_spec(ts, st) == (Ok::<Node, (Kind, crate::Span)>(paren_node(ts[p], ts[s2.pos], u)), st4));
            assert(shape(paren_node(ts[p], ts[s2.pos], u)) == shape(u));
            }
}

#[verifier::spinoff_prover]
proof fn lemma_operand_paren(ts: Seq<Tok>, st: PState, t: Node)
    requires
        t.kind is ParenExpr,
        clean(t),
        kinds_at(ts, st.pos, rtoks(t)),
        st.pos + rtoks(t).len() < ts.len(),
        ts[st.pos + rtoks(t).len()].kind != Kind::OpenParen,
    ensures
        parse_operand_spec(ts, st).0 is Ok,
        shape(parse_operand_spec(ts, st).0->Ok_0) == shape(t),
        parse_operand_spec(ts, st).1 == moved(st, rtoks(t).len()),
    decreases t, 0int,
{
    let p = st.pos;
    let k = rtoks(t);
    lemma_rtoks_first(t);
    lemma_kind_at(ts, p, k, 0);
    if let NodeKind::ParenExpr(o, c, e) = t.kind {
            let ek = rtoks(*e);
            assert(k == seq![Kind::OpenParen] + (ek + seq![Kind::CloseParen]));
            lemma_kinds_split(ts, p, seq![Kind::OpenParen], ek + seq![Kind::CloseParen]);
            lemma_kinds_split(ts, p + 1, ek, seq![Kind::CloseParen]);
            let st1 = PState { pos: p + 1, errs: st.errs };
            assert(expect(ts, st, Kind::OpenParen) == (ts[p], st1));
            lemma_kind_at(ts, p + 1 + ek.len(), seq![Kind::CloseParen], 0);
            lemma_expr(ts, st1, *e);
            let e2 = parse_expr_spec(ts, st1).0;
            let s2 = moved(st1, ek.len());
            assert(ts[s2.pos].kind == Kind::CloseParen);
            let st4 = PState { pos: s2.pos + 1, errs: st.errs };
            assert(expect(ts, s2, Kind::CloseParen) == (ts[s2.pos], st4));
            assert(parse_operand_spec(ts, st) == (Ok::<Node, (Kind, crate::Span)>(paren_node(ts[p], ts[s2.pos], e2)), st4));
            assert(shape(paren_node(ts[p], ts[s2.pos], e2)) == shape(e2));
            }
}

#[verifier::spinoff_prover]
proof fn lemma_operand_call(ts: Seq<Tok>, st: PState, t: Node)
    requires
        t.kind is Func,
        clean(t),
        kinds_at(ts, st.pos, rtoks(t)),
        st.pos + rtoks(t).len() < ts.len(),
        ts[st.pos + rtoks(t).len()].kind != Kind::OpenParen,
    ensures
        parse_operand_spec(ts, st).0 is Ok,
        shape(parse_operand_spec(ts, st).0->Ok_0) == shape(t),
        parse_operand_spec(ts, st).1 == moved(st, rtoks(t).len()),
    decreases t, 0int,
{
    let p = st.pos;
    let k = rtoks(t);
    lemma_rtoks_first(t);
    lemma_kind_at(ts, p, k, 0);
    if let NodeKind::Func(name, args) = t.kind {
            let ak = rtoks_args(args);
            assert(k == seq![Kind::Ident(name)] + (seq![Kind::OpenParen] + (ak + seq![Kind::CloseParen])));
            lemma_kinds_split(ts, p, seq![Kind::Ident(name)], seq![Kind::OpenParen] + (ak + seq![Kind::CloseParen]));
            lemma_kinds_split(ts, p + 1, seq![Kind::OpenParen], ak + seq![Kind::CloseParen]);
            lemma_kinds_split(ts, p + 2, ak, seq![Kind::CloseParen]);
            let st1 = PState { pos: p + 1, errs: st.errs };
            lemma_kind_at(ts, p + 1, seq![Kind::OpenParen], 0);
            lemma_kind_at(ts, p + 2 + ak.len(), seq![Kind::CloseParen], 0);
            assert(ts[p + 1].kind == Kind::OpenParen);
            let st2 = PState { pos: p + 2, errs: st.errs };
            assert(expect(ts, st1, Kind::OpenParen) == (ts[p + 1], st2));
            let s3 = moved(st2, ak.len());
            assert(ts[s3.pos].kind == Kind::CloseParen);
            if args.len() == 0 {
                assert(parse_args_spec(ts, st2, seq![]) == (Seq::<Node>::empty(), st2));
                assert(shape_all(args) == Seq::<Shape>::empty());
            } else {
                lemma_args(ts, st2, seq![], args);
            }
            let pa = parse_args_spec(ts, st2, seq![]);
            assert(shape_all(pa.0) == shape_all(args)) by {
                assert(shape_all(Seq::<Node>::empty()) + shape_all(args) =~= shape_all(args));
            }
            let st4 = PState { pos: s3.pos + 1, errs: st.errs };
            assert(expect(ts, s3, Kind::CloseParen) == (ts[s3.pos], st4));
            assert(parse_operand_spec(ts, st) == parse_func_args_spec(ts, st1, name, ts[p].span.start));
            assert(parse_func_args_spec(ts, st1, name, ts[p].span.start) == (Ok::<Node, (Kind, crate::Span)>(func_node(name, pa.0, crate::Span { start: ts[p].span.start, end: ts[s3.pos].span.end })), st4));
            }
}

/// A whole expression position holding a rendered tree, followed by a token that
/// closes it, reads back a tree of the same shape.
proof fn lemma_expr(ts: Seq<Tok>, st: PState, t: Node)
    requires
        clean(t),
        kinds_at(ts, st.pos, rtoks(t)),
        st.pos + rtoks(t).len() < ts.len(),
        closes(ts[st.pos + rtoks(t).len()].kind),
    ensures
        shape(parse_expr_spec(ts, st).0) == shape(t),
        parse_expr_spec(ts, st).1 == moved(st, rtoks(t).len()),
    decreases t, 2int,
{
    let k = rtoks(t);
    lemma_rtoks_first(t);
    lemma_kind_at(ts, st.pos, k, 0);
    assert(parse_unary_spec(ts, st) == parse_operand_spec(ts, st));
    lemma_operand(ts, st, t);
    let n = parse_operand_spec(ts, st).0->Ok_0;
    let s1 = moved(st, k.len());
    assert(binary_loop_spec(ts, s1, n, 1) == (Ok::<Node, (Kind, crate::Span)>(n), s1));
    assert(parse_binary_spec(ts, st, 1) == (Ok::<Node, (Kind, crate::Span)>(n), s1));
}

/// Rendered arguments with commas between them, up to a closing parenthesis, read
/// back as arguments of the same shapes.
proof fn lemma_args(ts: Seq<Tok>, st: PState, acc: Seq<Node>, args: Seq<Node>)
    requires
        clean_all(args),
        args.len() > 0,
        kinds_at(ts, st.pos, rtoks_args(args)),
        st.pos + rtoks_args(args).len() < ts.len(),
        ts[st.pos + rtoks_args(args).len()].kind == Kind::CloseParen,
    ensures
        shape_all(parse_args_spec(ts, st, acc).0) == shape_all(acc) + shape_all(args),
        parse_args_spec(ts, st, acc).1 == moved(st, rtoks_args(args).len()),
    decreases args, 3int,
{
    let a0 = args[0];
    let k0 = rtoks(a0);
    lemma_rtoks_first(a0);
    if args.len() == 1 {
        assert(rtoks_args(args) == k0);
        lemma_kind_at(ts, st.pos, k0, 0);
        lemma_expr(ts, st, a0);
        let e = parse_expr_spec(ts, st).0;
        let s1 = moved(st, k0.len());
        assert(parse_args_spec(ts, st, acc) == (acc.push(e), s1));
        lemma_shape_all_push(acc, e);
        assert(args.drop_first() =~= Seq::<Node>::empty());
        assert(shape_all(Seq::<Node>::empty()) == Seq::<Shape>::empty());
        assert(shape_all(args) =~= seq![shape(a0)]);
    } else {
        let rest = args.drop_first();
        let rk = rtoks_args(rest);
        assert(rtoks_args(args) == k0 + (seq![Kind::Comma] + rk));
        lemma_kinds_split(ts, st.pos, k0, seq![Kind::Comma] + rk);
        lemma_kinds_split(ts, st.pos + k0.len(), seq![Kind::Comma], rk);
        lemma_kind_at(ts, st.pos, k0, 0);
        lemma_kind_at(ts, st.pos + k0.len(), seq![Kind::Comma], 0);
        lemma_expr(ts, st, a0);
        let e = parse_expr_spec(ts, st).0;
        let s1 = moved(st, k0.len());
        assert(ts[s1.pos].kind == Kind::Comma);
        let s2 = PState { pos: s1.pos + 1, errs: st.errs };
        lemma_args(ts, s2, acc.push(e), rest);
        assert(parse_args_spec(ts, st, acc) == parse_args_spec(ts, s2, acc.push(e)));
        lemma_shape_all_push(acc, e);
        assert(shape_all(args) == seq![shape(a0)] + shape_all(rest));
        assert(shape_all(acc) + seq![shape(e)] + shape_all(rest) =~= shape_all(acc) + shape_all(args));
    }
}

/// Parsing the tokens of a clean tree's rendering, closed by the end marker, gives
/// back a tree of the same shape and reports no error.
pub proof fn lemma_reparse_tokens(t: Node, ts: Seq<Tok>)
    requires
        clean(t),
        ts.len() == rtoks(t).len() + 1,
        kinds_at(ts, 0, rtoks(t)),
        ts.last().kind == Kind::EOF,
    ensures
        shape(parse_tokens(ts).0) == shape(t),
        parse_tokens(ts).1.len() == 0,
{
    assert(sealed(ts) == ts);
    lemma_expr(ts, start_state(), t);
}

/// The kinds of a token sequence.
pub open spec fn kinds(ts: Seq<Tok>) -> Seq<Kind> {
    ts.map_values(|t: Tok| t.kind)
}

proof fn lemma_scan_tok(cs: Seq<char>, i: int, k: Kind, j: int)
    requires
        0 <= i < cs.len(),
        lexeme_at(cs, i) == Lexeme::Tok(k, j),
    ensures
        kinds(scan_tokens(cs, i)) == seq![k] + kinds(scan_tokens(cs, j)),
{
    let rest = scan_tokens(cs, j);
    let t = Tok { kind: k, span: crate::lexer::char_span(cs, i, j) };
    assert(scan_tokens(cs, i) == seq![t] + rest);
    assert(kinds(seq![t] + rest) =~= seq![k] + kinds(rest));
}

proof fn lemma_scan_skip(cs: Seq<char>, i: int, j: int)
    requires
        0 <= i < cs.len(),
        lexeme_at(cs, i) == Lexeme::Skip(j),
    ensures
        kinds(scan_tokens(cs, i)) == kinds(scan_tokens(cs, j)),
{
}

/// A character that may follow a rendered tree.
pub open spec fn delimits(cs: Seq<char>, j: int) -> bool {
    j == cs.len() || (0 <= j < cs.len() && (cs[j] == ' ' || cs[j] == ')' || cs[j] == ','))
}

/// Whether `piece` stands in `cs` from index `i`.
pub open spec fn stands_at(cs: Seq<char>, i: int, piece: Seq<char>) -> bool {
    0 <= i && i + piece.len() <= cs.len() && cs.subrange(i, i + piece.len()) == piece
}

proof fn lemma_stands_split(cs: Seq<char>, i: int, a: Seq<char>, b: Seq<char>)
    requires
        stands_at(cs, i, a + b),
    ensures
        stands_at(cs, i, a),
        stands_at(cs, i + a.len(), b),
{
    assert(cs.subrange(i, i + a.len()) =~= (a + b).subrange(0, a.len() as int));
    assert((a + b).subrange(0, a.len() as int) =~= a);
    assert(cs.subrange(i + a.len(), i + a.len() + b.len()) =~= (a + b).subrange(
        a.len() as int,
        (a + b).len() as int,
    ));
    assert((a + b).subrange(a.len() as int, (a + b).len() as int) =~= b);
}

proof fn lemma_stands_char(cs: Seq<char>, i: int, piece: Seq<char>, k: int)
    requires
        stands_at(cs, i, piece),
        0 <= k < piece.len(),
    ensures
        cs[i + k] == piece[k],
{
    assert(cs.subrange(i, i + piece.len())[k] == cs[i + k]);
}

/// A single punctuation character followed by anything is that one token.
proof fn lemma_lex_punct(cs: Seq<char>, i: int)
    requires
        0 <= i < cs.len(),
        cs[i] == '(' || cs[i] == ')' || cs[i] == ',',
    ensures
        lexeme_at(cs, i) == Lexeme::Tok(single_char_kind(cs[i])->0, i + 1),
{
}

/// An operator's text followed by a blank is that operator.
proof fn lemma_lex_op(cs: Seq<char>, i: int, op: Kind)
    requires
        op.is_binary_op(),
        stands_at(cs, i, op.text() + " "@),
    ensures
        0 <= i < cs.len(),
        lexeme_at(cs, i) == Lexeme::Tok(op, i + op.text().len()),
{
    reveal_strlit("*");
    reveal_strlit("/");
    reveal_strlit("+");
    reveal_strlit("-");
    reveal_strlit("^");
    reveal_strlit("==");
    reveal_strlit(">");
    reveal_strlit("<");
    reveal_strlit(">=");
    reveal_strlit("<=");
    reveal_strlit(" ");
    lemma_stands_char(cs, i, op.text() + " "@, 0);
    lemma_stands_char(cs, i, op.text() + " "@, 1);
    if op.text().len() == 2 {
        lemma_stands_char(cs, i, op.text() + " "@, 2);
    }
}

proof fn lemma_ident_len(cs: Seq<char>, i: int, name: Seq<char>, k: int)
    requires
        valid_ident(name),
        stands_at(cs, i, name),
        1 <= k <= name.len(),
        i + name.len() == cs.len() || !ident_continue(cs[i + name.len()]),
    ensures
        ident_len(cs, i + k) == name.len() - k,
    decreases name.len() - k,
{
    if k < name.len() {
        lemma_stands_char(cs, i, name, k);
        lemma_ident_len(cs, i, name, k + 1);
    }
}

/// A well-spelled name followed by a character that cannot continue it is one identifier.
proof fn lemma_lex_ident(cs: Seq<char>, i: int, name: Seq<char>)
    requires
        valid_ident(name),
        stands_at(cs, i, name),
        i + name.len() == cs.len() || !ident_continue(cs[i + name.len()]),
    ensures
        lexeme_at(cs, i) == Lexeme::Tok(Kind::Ident(name), i + name.len()),
{
    lemma_stands_char(cs, i, name, 0);
    lemma_ident_len(cs, i, name, 1);
    let c = cs[i];
    assert(single_char_kind(c) is None);
    assert(!is_digit(c));
}

proof fn lemma_decimal_digits(n: nat)
    ensures
        decimal(n).len() > 0,
        forall|k: int| 0 <= k < decimal(n).len() ==> is_digit(#[trigger] decimal(n)[k]),
        digits_value(decimal(n)) == n,
    decreases n,
{
    if n >= 10 {
        lemma_decimal_digits(n / 10);
        let d = decimal(n / 10);
        assert(decimal(n) == d.push(digit_char(n % 10)));
        assert(decimal(n).drop_last() =~= d);
        assert(decimal(n).last() == digit_char(n % 10));
        assert((digit_char(n % 10) as u32) == 48 + n % 10);
        assert(n == (n / 10) * 10 + n % 10);
        assert(digits_value(decimal(n)) == digits_value(d) * 10 + ((decimal(n).last() as u32)
            - 48) as nat);
    } else {
        assert(decimal(n).drop_last() =~= Seq::<char>::empty());
        assert((digit_char(n) as u32) == 48 + n);
        assert(digits_value(Seq::<char>::empty()) == 0);
        assert(digits_value(decimal(n)) == digits_value(decimal(n).drop_last()) * 10 + ((
        decimal(n).last() as u32) - 48) as nat);
    }
}

proof fn lemma_digits_len(cs: Seq<char>, i: int, ds: Seq<char>, k: int)
    requires
        stands_at(cs, i, ds),
        forall|m: int| 0 <= m < ds.len() ==> is_digit(#[trigger] ds[m]),
        0 <= k <= ds.len(),
        i + ds.len() == cs.len() || !is_digit(cs[i + ds.len()]),
    ensures
        digits_len(cs, i + k) == ds.len() - k,
    decreases ds.len() - k,
{
    if k < ds.len() {
        lemma_stands_char(cs, i, ds, k);
        assert(is_digit(ds[k]));
        lemma_digits_len(cs, i, ds, k + 1);
    }
}

/// The decimal digits of a `u32` followed by a non-digit are that integer.
proof fn lemma_lex_integer(cs: Seq<char>, i: int, v: u32)
    requires
        stands_at(cs, i, decimal(v as nat)),
        i + decimal(v as nat).len() == cs.len() || !is_digit(cs[i + decimal(v as nat).len()]),
    ensures
        lexeme_at(cs, i) == Lexeme::Tok(Kind::Integer(v), i + decimal(v as nat).len()),
{
    let ds = decimal(v as nat);
    lemma_decimal_digits(v as nat);
    lemma_stands_char(cs, i, ds, 0);
    assert(is_digit(ds[0]));
    lemma_digits_len(cs, i, ds, 1);
    assert(cs.subrange(i, i + ds.len()) == ds);
    let c = cs[i];
    assert(single_char_kind(c) is None);
}

proof fn lemma_clean_all_split(args: Seq<Node>)
    requires
        clean_all(args),
        args.len() > 0,
    ensures
        clean_all(args.drop_last()),
        clean(args.last()),
    decreases args.len(),
{
    if args.len() > 1 {
        lemma_clean_all_split(args.drop_first());
        assert(args.drop_first().drop_last() =~= args.drop_last().drop_first());
        assert(args.drop_first().last() == args.last());
    } else {
        assert(args.drop_last() =~= Seq::<Node>::empty());
    }
}

proof fn lemma_rtoks_args_back(args: Seq<Node>)
    requires
        args.len() > 1,
    ensures
        rtoks_args(args) == rtoks_args(args.drop_last()) + seq![Kind::Comma] + rtoks(args.last()),
    decreases args.len(),
{
    let init = args.drop_last();
    if args.len() == 2 {
        assert(args.drop_first() =~= seq![args.last()]);
        assert(init =~= seq![args[0]]);
        assert(rtoks_args(init) == rtoks(args[0]));
        assert(rtoks_args(args.drop_first()) == rtoks(args.last()));
    } else {
        lemma_rtoks_args_back(args.drop_first());
        assert(args.drop_first().drop_last() =~= init.drop_first());
        assert(args.drop_first().last() == args.last());
        assert(init[0] == args[0]);
        assert(rtoks_args(args) =~= rtoks_args(init) + seq![Kind::Comma] + rtoks(args.last()));
    }
}

/// The characters that may follow a rendered tree end every token before them.
proof fn lemma_delimiter(cs: Seq<char>, j: int)
    requires
        delimits(cs, j),
    ensures
        j == cs.len() || (!ident_continue(cs[j]) && !is_digit(cs[j])),
{
}

/// A rendered tree standing in the text, followed by a delimiter, scans as the
/// token kinds of its rendering.
proof fn lemma_lex_render(cs: Seq<char>, i: int, t: Node)
    requires
        clean(t),
        stands_at(cs, i, render(t)),
        delimits(cs, i + render(t).len()),
    ensures
        kinds(scan_tokens(cs, i)) == rtoks(t) + kinds(scan_tokens(cs, i + render(t).len())),
    decreases t, 1int,
{
    let n = render(t).len();
    lemma_delimiter(cs, i + n);
    match t.kind {
        NodeKind::Ident(name) => {
            lemma_lex_ident(cs, i, name);
            lemma_scan_tok(cs, i, Kind::Ident(name), i + n);
        },
        NodeKind::Integer(v) => {
            lemma_lex_integer(cs, i, v);
            lemma_scan_tok(cs, i, Kind::Integer(v), i + n);
        },
        NodeKind::Binary(..) => lemma_lex_binary(cs, i, t),
        NodeKind::Unary(..) => lemma_lex_unary(cs, i, t),
        NodeKind::ParenExpr(..) => lemma_lex_paren(cs, i, t),
        NodeKind::Func(..) => lemma_lex_call(cs, i, t),
        NodeKind::ErrorNode(_) => {},
    }
}

proof fn lemma_lex_open(cs: Seq<char>, i: int)
    requires
        stands_at(cs, i, "("@),
    ensures
        kinds(scan_tokens(cs, i)) == seq![Kind::OpenParen] + kinds(scan_tokens(cs, i + 1)),
{
    reveal_strlit("(");
    lemma_stands_char(cs, i, "("@, 0);
    lemma_lex_punct(cs, i);
    lemma_scan_tok(cs, i, Kind::OpenParen, i + 1);
}

proof fn lemma_lex_close(cs: Seq<char>, i: int)
    requires
        stands_at(cs, i, ")"@),
    ensures
        kinds(scan_tokens(cs, i)) == seq![Kind::CloseParen] + kinds(scan_tokens(cs, i + 1)),
{
    reveal_strlit(")");
    lemma_stands_char(cs, i, ")"@, 0);
    lemma_lex_punct(cs, i);
    lemma_scan_tok(cs, i, Kind::CloseParen, i + 1);
}

proof fn lemma_lex_blank(cs: Seq<char>, i: int)
    requires
        stands_at(cs, i, " "@),
    ensures
        kinds(scan_tokens(cs, i)) == kinds(scan_tokens(cs, i + 1)),
{
    reveal_strlit(" ");
    lemma_stands_char(cs, i, " "@, 0);
    lemma_scan_skip(cs, i, i + 1);
}

#[verifier::spinoff_prover]
proof fn lemma_lex_binary(cs: Seq<char>, i: int, t: Node)
    requires
        t.kind is Binary,
        clean(t),
        stands_at(cs, i, render(t)),
        delimits(cs, i + render(t).len()),
    ensures
        kinds(scan_tokens(cs, i)) == rtoks(t) + kinds(scan_tokens(cs, i + render(t).len())),
    decreases t, 0int,
{
    if let NodeKind::Binary(op, l, r) = t.kind {
        reveal_strlit("(");
        reveal_strlit(")");
        reveal_strlit(" ");
        let lr = render(*l);
        let rr = render(*r);
        let ot = op.kind.text();
        assert(render(t) =~= "("@ + (lr + (" "@ + (ot + (" "@ + (rr + ")"@))))));
        lemma_stands_split(cs, i, "("@, lr + (" "@ + (ot + (" "@ + (rr + ")"@)))));
        let i1 = i + 1;
        lemma_stands_split(cs, i1, lr, " "@ + (ot + (" "@ + (rr + ")"@))));
        let i2 = i1 + lr.len();
        lemma_stands_split(cs, i2, " "@, ot + (" "@ + (rr + ")"@)));
        let i3 = i2 + 1;
        lemma_stands_split(cs, i3, ot, " "@ + (rr + ")"@));
        let i4 = i3 + ot.len();
        lemma_stands_split(cs, i4, " "@, rr + ")"@);
        let i5 = i4 + 1;
        lemma_stands_split(cs, i5, rr, ")"@);
        let i6 = i5 + rr.len();
        assert(stands_at(cs, i3, ot + " "@)) by {
            assert(cs.subrange(i3, i3 + ot.len() + 1) =~= ot + " "@) by {
                assert(cs.subrange(i3, i3 + ot.len()) == ot);
                assert(cs.subrange(i4, i4 + 1) == " "@);
                assert(cs.subrange(i3, i3 + ot.len() + 1) =~= cs.subrange(i3, i3 + ot.len()) + cs.subrange(i4, i4 + 1));
            }
        }
        lemma_stands_char(cs, i2, " "@, 0);
        lemma_stands_char(cs, i6, ")"@, 0);
        lemma_lex_open(cs, i);
        lemma_lex_render(cs, i1, *l);
        lemma_lex_blank(cs, i2);
        lemma_lex_op(cs, i3, op.kind);
        lemma_scan_tok(cs, i3, op.kind, i4);
        lemma_lex_blank(cs, i4);
        lemma_lex_render(cs, i5, *r);
        lemma_lex_close(cs, i6);
        assert(i6 + 1 == i + render(t).len());
        assert(rtoks(t) == seq![Kind::OpenParen] + rtoks(*l) + seq![op.kind] + rtoks(*r) + seq![Kind::CloseParen]);
        let tail = kinds(scan_tokens(cs, i6 + 1));
        assert(seq![Kind::OpenParen] + (rtoks(*l) + (seq![op.kind] + (rtoks(*r) + (seq![Kind::CloseParen] + tail)))) =~= rtoks(t) + tail);
    }
}

#[verifier::spinoff_prover]
proof fn lemma_lex_unary(cs: Seq<char>, i: int, t: Node)
    requires
        t.kind is Unary,
        clean(t),
        stands_at(cs, i, render(t)),
        delimits(cs, i + render(t).len()),
    ensures
        kinds(scan_tokens(cs, i)) == rtoks(t) + kinds(scan_tokens(cs, i + render(t).len())),
    decreases t, 0int,
{
    if let NodeKind::Unary(op, e) = t.kind {
        reveal_strlit("(");
        reveal_strlit(")");
        reveal_strlit(" ");
        let er = render(*e);
        let ot = op.kind.text();
        assert(render(t) =~= "("@ + (ot + (" "@ + (er + ")"@))));
        lemma_stands_split(cs, i, "("@, ot + (" "@ + (er + ")"@)));
        let i1 = i + 1;
        lemma_stands_split(cs, i1, ot, " "@ + (er + ")"@));
        let i2 = i1 + ot.len();
        lemma_stands_split(cs, i2, " "@, er + ")"@);
        let i3 = i2 + 1;
        lemma_stands_split(cs, i3, er, ")"@);
        let i4 = i3 + er.len();
        assert(stands_at(cs, i1, ot + " "@)) by {
            assert(cs.subrange(i1, i1 + ot.len() + 1) =~= cs.subrange(i1, i1 + ot.len()) + cs.subrange(i2, i2 + 1));
        }
        lemma_stands_char(cs, i4, ")"@, 0);
        lemma_lex_open(cs, i);
        lemma_lex_op(cs, i1, op.kind);
        lemma_scan_tok(cs, i1, op.kind, i2);
        lemma_lex_blank(cs, i2);
        lemma_lex_render(cs, i3, *e);
        lemma_lex_close(cs, i4);
        assert(rtoks(t) == seq![Kind::OpenParen, op.kind] + rtoks(*e) + seq![Kind::CloseParen]);
        let tail = kinds(scan_tokens(cs, i4 + 1));
        assert(seq![Kind::OpenParen] + (seq![op.kind] + (rtoks(*e) + (seq![Kind::CloseParen] + tail))) =~= rtoks(t) + tail);
    }
}

#[verifier::spinoff_prover]
proof fn lemma_lex_paren(cs: Seq<char>, i: int, t: Node)
    requires
        t.kind is ParenExpr,
        clean(t),
        stands_at(cs, i, render(t)),
        delimits(cs, i + render(t).len()),
    ensures
        kinds(scan_tokens(cs, i)) == rtoks(t) + kinds(scan_tokens(cs, i + render(t).len())),
    decreases t, 0int,
{
    if let NodeKind::ParenExpr(o, c, e) = t.kind {
        reveal_strlit("(");
        reveal_strlit(")");
        reveal_strlit(" ");
        let er = render(*e);
        assert(o.kind.text() == "("@);
        assert(c.kind.text() == ")"@);
        assert(render(t) =~= "("@ + (" "@ + (er + (" "@ + ")"@))));
        lemma_stands_split(cs, i, "("@, " "@ + (er + (" "@ + ")"@)));
        lemma_stands_split(cs, i + 1, " "@, er + (" "@ + ")"@));
        let i2 = i + 2;
        lemma_stands_split(cs, i2, er, " "@ + ")"@);
        let i3 = i2 + er.len();
        lemma_stands_split(cs, i3, " "@, ")"@);
        lemma_stands_char(cs, i3, " "@, 0);
        lemma_lex_open(cs, i);
        lemma_lex_blank(cs, i + 1);
        lemma_lex_render(cs, i2, *e);
        lemma_lex_blank(cs, i3);
        lemma_lex_close(cs, i3 + 1);
        assert(rtoks(t) == seq![Kind::OpenParen] + rtoks(*e) + seq![Kind::CloseParen]);
        let tail = kinds(scan_tokens(cs, i3 + 2));
        assert(seq![Kind::OpenParen] + (rtoks(*e) + (seq![Kind::CloseParen] + tail)) =~= rtoks(t) + tail);
    }
}

#[verifier::spinoff_prover]
proof fn lemma_lex_call(cs: Seq<char>, i: int, t: Node)
    requires
        t.kind is Func,
        clean(t),
        stands_at(cs, i, render(t)),
        delimits(cs, i + render(t).len()),
    ensures
        kinds(scan_tokens(cs, i)) == rtoks(t) + kinds(scan_tokens(cs, i + render(t).len())),
    decreases t, 0int,
{
    if let NodeKind::Func(name, args) = t.kind {
        reveal_strlit("(");
        reveal_strlit(")");
        let ar = render_args(args);
        assert(render(t) =~= name + ("("@ + (ar + ")"@)));
        lemma_stands_split(cs, i, name, "("@ + (ar + ")"@));
        let i1 = i + name.len();
        lemma_stands_split(cs, i1, "("@, ar + ")"@);
        let i2 = i1 + 1;
        lemma_stands_split(cs, i2, ar, ")"@);
        let i3 = i2 + ar.len();
        lemma_stands_char(cs, i1, "("@, 0);
        lemma_stands_char(cs, i3, ")"@, 0);
        lemma_lex_ident(cs, i, name);
        lemma_scan_tok(cs, i, Kind::Ident(name), i1);
        lemma_lex_open(cs, i1);
        if args.len() == 0 {
            assert(ar.len() == 0);
            assert(rtoks_args(args) == Seq::<Kind>::empty());
        } else {
            lemma_lex_args(cs, i2, args);
        }
        lemma_lex_close(cs, i3);
        assert(rtoks(t) == seq![Kind::Ident(name), Kind::OpenParen] + rtoks_args(args) + seq![Kind::CloseParen]);
        let tail = kinds(scan_tokens(cs, i3 + 1));
        assert(seq![Kind::Ident(name)] + (seq![Kind::OpenParen] + (rtoks_args(args) + (seq![Kind::CloseParen] + tail))) =~= rtoks(t) + tail);
    }
}

/// Rendered arguments followed by a delimiter scan as their token kinds, commas between.
proof fn lemma_lex_args(cs: Seq<char>, i: int, args: Seq<Node>)
    requires
        clean_all(args),
        args.len() > 0,
        stands_at(cs, i, render_args(args)),
        delimits(cs, i + render_args(args).len()),
    ensures
        kinds(scan_tokens(cs, i)) == rtoks_args(args) + kinds(scan_tokens(cs, i + render_args(args).len())),
    decreases args, 2int,
{
    lemma_clean_all_split(args);
    if args.len() == 1 {
        assert(args[0] == args.last());
        assert(rtoks_args(args) == rtoks(args.last()));
        assert(render_args(args) == render(args.last()));
        lemma_lex_render(cs, i, args.last());
    } else {
        reveal_strlit(", ");
        let init = args.drop_last();
        let ir = render_args(init);
        let lr = render(args.last());
        assert(render_args(args) =~= ir + (", "@ + lr));
        lemma_stands_split(cs, i, ir, ", "@ + lr);
        let i1 = i + ir.len();
        lemma_stands_split(cs, i1, ", "@, lr);
        lemma_stands_char(cs, i1, ", "@, 0);
        lemma_stands_char(cs, i1, ", "@, 1);
        lemma_lex_args(cs, i, init);
        lemma_lex_punct(cs, i1);
        lemma_scan_tok(cs, i1, Kind::Comma, i1 + 1);
        lemma_scan_skip(cs, i1 + 1, i1 + 2);
        lemma_lex_render(cs, i1 + 2, args.last());
        lemma_rtoks_args_back(args);
        let tail = kinds(scan_tokens(cs, i + render_args(args).len()));
        assert(rtoks_args(init) + (seq![Kind::Comma] + (rtoks(args.last()) + tail)) =~= rtoks_args(args) + tail);
    }
}

/// Rendering a clean tree and parsing the text again gives a tree of the same shape,
/// and no syntax error is reported.
pub proof fn lemma_round_trip(t: Node)
    requires
        clean(t),
    ensures
        shape(parse_tokens(lex_tokens(render(t))).0) == shape(t),
        parse_tokens(lex_tokens(render(t))).1.len() == 0,
{
    let cs = render(t);
    assert(cs.subrange(0, cs.len() as int) =~= cs);
    lemma_lex_render(cs, 0, t);
    let sc = scan_tokens(cs, 0);
    assert(scan_tokens(cs, cs.len() as int) == Seq::<Tok>::empty());
    assert(kinds(Seq::<Tok>::empty()) =~= Seq::<Kind>::empty());
    assert(kinds(sc) =~= rtoks(t));
    let ts = lex_tokens(cs);
    assert forall|k: int| 0 <= k < rtoks(t).len() implies ts[0 + k].kind == #[trigger] rtoks(t)[k] by {
        assert(ts[k] == sc[k]);
        assert(kinds(sc)[k] == sc[k].kind);
    }
    lemma_reparse_tokens(t, ts);
}

/// Whether every identifier token of `ts` is spelled as the tokenizer reads one.
pub open spec fn idents_ok(ts: Seq<Tok>) -> bool {
    forall|k: int|
        0 <= k < ts.len() && (#[trigger] ts[k]).kind is Ident ==> valid_ident(ts[k].kind->Ident_0)
}

proof fn lemma_clean_all_push(acc: Seq<Node>, n: Node)
    requires
        clean_all(acc),
        clean(n),
    ensures
        clean_all(acc.push(n)),
    decreases acc.len(),
{
    if acc.len() == 0 {
        assert(acc.push(n).drop_first() =~= Seq::<Node>::empty());
        assert(acc.push(n)[0] == n);
        assert(clean_all(Seq::<Node>::empty()));
    } else {
        lemma_clean_all_push(acc.drop_first(), n);
        assert(acc.push(n).drop_first() =~= acc.drop_first().push(n));
        assert(acc.push(n)[0] == acc[0]);
    }
}

proof fn lemma_clean_operand(ts: Seq<Tok>, st: PState)
    requires
        idents_ok(ts),
    ensures
        parse_operand_spec(ts, st).1.errs.len() >= st.errs.len(),
        st.errs.len() == 0 && parse_operand_spec(ts, st).1.errs.len() == 0 && parse_operand_spec(
            ts,
            st,
        ).0 is Ok ==> clean(parse_operand_spec(ts, st).0->Ok_0),
    decreases ts.len() - st.pos, 2int,
{
    if valid(ts, st) {
        let t = ts[st.pos];
        match t.kind {
            Kind::Ident(name) => {
                assert(valid_ident(name));
                let st1 = advance(ts, st);
                if ts[st1.pos].kind == Kind::OpenParen {
                    lemma_clean_func_args(ts, st1, name, t.span.start);
                }
            },
            Kind::OpenParen => {
                let (open, st1) = expect(ts, st, Kind::OpenParen);
                if st1.pos > st.pos {
                    lemma_clean_expr(ts, st1);
                }
            },
            _ => {},
        }
    }
}

proof fn lemma_clean_func_args(ts: Seq<Tok>, st: PState, name: Seq<char>, start: usize)
    requires
        idents_ok(ts),
        valid_ident(name),
    ensures
        parse_func_args_spec(ts, st, name, start).1.errs.len() >= st.errs.len(),
        st.errs.len() == 0 && parse_func_args_spec(ts, st, name, start).1.errs.len() == 0
            && parse_func_args_spec(ts, st, name, start).0 is Ok ==> clean(
            parse_func_args_spec(ts, st, name, start).0->Ok_0,
        ),
    decreases ts.len() - st.pos, 1int,
{
    if valid(ts, st) {
        let (_, st1) = expect(ts, st, Kind::OpenParen);
        if st1.pos > st.pos {
            lemma_clean_args(ts, st1, seq![]);
        }
    }
}

proof fn lemma_clean_args(ts: Seq<Tok>, st: PState, acc: Seq<Node>)
    requires
        idents_ok(ts),
    ensures
        parse_args_spec(ts, st, acc).1.errs.len() >= st.errs.len(),
        st.errs.len() == 0 && parse_args_spec(ts, st, acc).1.errs.len() == 0 && clean_all(acc)
            ==> clean_all(parse_args_spec(ts, st, acc).0),
    decreases ts.len() - st.pos, 7int,
{
    if valid(ts, st) && ts[st.pos].kind != Kind::CloseParen {
        lemma_clean_expr(ts, st);
        let (e, st1) = parse_expr_spec(ts, st);
        let acc1 = acc.push(e);
        if st.errs.len() == 0 && st1.errs.len() == 0 && clean_all(acc) {
            lemma_clean_all_push(acc, e);
        }
        if ts[st1.pos].kind == Kind::Comma {
            let st2 = advance(ts, st1);
            if st2.pos > st.pos && valid(ts, st2) {
                lemma_clean_args(ts, st2, acc1);
            }
        }
    }
}

proof fn lemma_clean_unary(ts: Seq<Tok>, st: PState)
    requires
        idents_ok(ts),
    ensures
        parse_unary_spec(ts, st).1.errs.len() >= st.errs.len(),
        st.errs.len() == 0 && parse_unary_spec(ts, st).1.errs.len() == 0 && parse_unary_spec(
            ts,
            st,
        ).0 is Ok ==> clean(parse_unary_spec(ts, st).0->Ok_0),
    decreases ts.len() - st.pos, 3int,
{
    if valid(ts, st) {
        let t = ts[st.pos];
        if t.kind.is_unary_op() {
            let st1 = advance(ts, st);
            lemma_clean_operand(ts, st1);
        } else {
            lemma_clean_operand(ts, st);
        }
    }
}

proof fn lemma_clean_loop(ts: Seq<Tok>, st: PState, lhs: Node, p: u32)
    requires
        idents_ok(ts),
        p >= 1,
    ensures
        binary_loop_spec(ts, st, lhs, p).1.errs.len() >= st.errs.len(),
        binary_loop_spec(ts, st, lhs, p).0 is Ok,
        st.errs.len() == 0 && binary_loop_spec(ts, st, lhs, p).1.errs.len() == 0 && clean(lhs)
            ==> clean(binary_loop_spec(ts, st, lhs, p).0->Ok_0),
    decreases ts.len() - st.pos, 4int,
{
    if valid(ts, st) {
        let op = ts[st.pos];
        let q = op.kind.precedence();
        if q >= p {
            let st1 = advance(ts, st);
            if st1.pos > st.pos {
                lemma_clean_binary(ts, st1, (q + 1) as u32);
                let (rhs, st2) = or_recover(
                    ts,
                    parse_binary_spec(ts, st1, (q + 1) as u32),
                    crate::parser::rhs_msg(op.kind),
                );
                let node = binary_node(op, lhs, rhs);
                if st2.pos > st.pos && valid(ts, st2) {
                    lemma_clean_loop(ts, st2, node, p);
                }
            }
        }
    }
}

proof fn lemma_clean_binary(ts: Seq<Tok>, st: PState, p: u32)
    requires
        idents_ok(ts),
        p >= 1,
    ensures
        parse_binary_spec(ts, st, p).1.errs.len() >= st.errs.len(),
        st.errs.len() == 0 && parse_binary_spec(ts, st, p).1.errs.len() == 0 && parse_binary_spec(
            ts,
            st,
            p,
        ).0 is Ok ==> clean(parse_binary_spec(ts, st, p).0->Ok_0),
    decreases ts.len() - st.pos, 5int,
{
    if valid(ts, st) {
        lemma_clean_unary(ts, st);
        let (r, st1) = parse_unary_spec(ts, st);
        if r is Ok && st1.pos >= st.pos && valid(ts, st1) {
            lemma_clean_loop(ts, st1, r->Ok_0, p);
        }
    }
}

proof fn lemma_clean_expr(ts: Seq<Tok>, st: PState)
    requires
        idents_ok(ts),
    ensures
        parse_expr_spec(ts, st).1.errs.len() >= st.errs.len(),
        st.errs.len() == 0 && parse_expr_spec(ts, st).1.errs.len() == 0 ==> clean(
            parse_expr_spec(ts, st).0,
        ),
    decreases ts.len() - st.pos, 6int,
{
    if ts.len() > 0 && valid(ts, st) {
        lemma_clean_binary(ts, st, 1);
    }
}

proof fn lemma_ident_run(cs: Seq<char>, i: int, m: int)
    requires
        0 <= i,
        i <= m < i + ident_len(cs, i),
    ensures
        0 <= m < cs.len(),
        ident_continue(cs[m]),
    decreases m - i,
{
    if m > i {
        lemma_ident_run(cs, i + 1, m);
    }
}

/// Every identifier the tokenizer finds is spelled as one.
proof fn lemma_scan_idents(cs: Seq<char>, i: int)
    ensures
        idents_ok(scan_tokens(cs, i)),
    decreases cs.len() - i,
{
    if 0 <= i < cs.len() {
        crate::lexer::lemma_lexeme_progress(cs, i);
        match lexeme_at(cs, i) {
            Lexeme::Skip(j) => lemma_scan_idents(cs, j),
            Lexeme::Bad(j) => lemma_scan_idents(cs, j),
            Lexeme::Tok(k, j) => {
                lemma_scan_idents(cs, j);
                let rest = scan_tokens(cs, j);
                let t = Tok { kind: k, span: crate::lexer::char_span(cs, i, j) };
                assert(scan_tokens(cs, i) == seq![t] + rest);
                if k is Ident {
                    let name = cs.subrange(i, j);
                    assert forall|m: int| 1 <= m < name.len() implies ident_continue(
                        #[trigger] name[m],
                    ) by {
                        lemma_ident_run(cs, i + 1, i + m);
                    }
                    assert(valid_ident(name));
                }
                assert forall|m: int|
                    0 <= m < scan_tokens(cs, i).len() && (#[trigger] scan_tokens(
                        cs,
                        i,
                    )[m]).kind is Ident implies valid_ident(
                    scan_tokens(cs, i)[m].kind->Ident_0,
                ) by {
                    if m > 0 {
                        assert(scan_tokens(cs, i)[m] == rest[m - 1]);
                    }
                }
            },
        }
    }
}

/// A tree parsed from any text without a syntax error is clean, so rendering it
/// and parsing the rendering gives back a tree of the same shape, again without a
/// syntax error.
pub proof fn lemma_reparse_parsed(s: Seq<char>)
    requires
        parse_tokens(lex_tokens(s)).1.len() == 0,
    ensures
        clean(parse_tokens(lex_tokens(s)).0),
        shape(parse_tokens(lex_tokens(render(parse_tokens(lex_tokens(s)).0))).0) == shape(
            parse_tokens(lex_tokens(s)).0,
        ),
        parse_tokens(lex_tokens(render(parse_tokens(lex_tokens(s)).0))).1.len() == 0,
{
    let ts = lex_tokens(s);
    let sc = scan_tokens(s, 0);
    lemma_scan_idents(s, 0);
    assert(idents_ok(ts)) by {
        assert forall|k: int| 0 <= k < ts.len() && (#[trigger] ts[k]).kind is Ident implies valid_ident(
            ts[k].kind->Ident_0,
        ) by {
            if k < sc.len() {
                assert(ts[k] == sc[k]);
            }
        }
    }
    assert(sealed(ts) == ts);
    lemma_clean_expr(ts, start_state());
    lemma_round_trip(parse_tokens(ts).0);
}

} // verus!
