use vstd::prelude::*;

use crate::token::{Kind, Tok, Token, TokenKind};
use crate::text::{decimal, push_decimal, push_str};
use crate::{merge_span, Span};

verus! {

/// A node of the syntax tree: what it is, where it stands, and whether it or
/// anything under it stands for a syntax error.
#[derive(Debug, PartialEq, Eq)]
pub struct AST {
    pub kind: Box<AstKind>,
    pub span: Span,
    pub has_err: bool,
}

#[derive(Debug, PartialEq, Eq)]
pub enum AstKind {
    Ident(String),
    Integer(u32),
    /// Operator, left operand, right operand.
    Binary(Token, AST, AST),
    /// Operator, operand.
    Unary(Token, AST),
    /// Opening and closing parenthesis, and what they enclose.
    ParenExpr(Token, Token, AST),
    /// A function's name and its arguments.
    Func(String, Vec<AST>),
    /// Stands where an operand could not be parsed.
    ErrorNode(AstErrorKind),
}

/// Why an operand could not be parsed.
#[derive(Clone, Debug, PartialEq, Eq)]
pub enum AstErrorKind {
    /// The token found where an operand should start.
    BadExpr(TokenKind),
}

/// The mathematical value of a syntax tree node.
pub struct Node {
    pub kind: NodeKind,
    pub span: Span,
    pub has_err: bool,
}

pub enum NodeKind {
    Ident(Seq<char>),
    Integer(u32),
    Binary(Tok, Box<Node>, Box<Node>),
    Unary(Tok, Box<Node>),
    ParenExpr(Tok, Tok, Box<Node>),
    Func(Seq<char>, Seq<Node>),
    ErrorNode(Kind),
}

pub open spec fn view_args(args: Seq<AST>) -> Seq<Node>
    decreases args,
{
    if args.len() == 0 {
        seq![]
    } else {
        view_args(args.drop_last()).push(args.last().view())
    }
}

/// The span covering both `a` and `b`.
pub open spec fn span_merge(a: Span, b: Span) -> Span {
    Span {
        start: if a.start <= b.start { a.start } else { b.start },
        end: if a.end >= b.end { a.end } else { b.end },
    }
}

/// Whether any of `args` stands for a syntax error.
pub open spec fn any_err(args: Seq<Node>) -> bool {
    exists|i: int| 0 <= i < args.len() && #[trigger] args[i].has_err
}

pub open spec fn leaf_node(kind: NodeKind, span: Span) -> Node {
    Node { kind, span, has_err: false }
}

pub open spec fn error_node(bad: Kind, span: Span) -> Node {
    Node { kind: NodeKind::ErrorNode(bad), span, has_err: true }
}

pub open spec fn binary_node(op: Tok, l: Node, r: Node) -> Node {
    Node {
        kind: NodeKind::Binary(op, Box::new(l), Box::new(r)),
        span: span_merge(l.span, r.span),
        has_err: l.has_err || r.has_err,
    }
}

pub open spec fn unary_node(op: Tok, e: Node) -> Node {
    Node {
        kind: NodeKind::Unary(op, Box::new(e)),
        span: span_merge(op.span, e.span),
        has_err: e.has_err,
    }
}

pub open spec fn paren_node(open: Tok, close: Tok, e: Node) -> Node {
    Node {
        kind: NodeKind::ParenExpr(open, close, Box::new(e)),
        span: Span { start: open.span.start, end: close.span.end },
        has_err: e.has_err,
    }
}

pub open spec fn func_node(name: Seq<char>, args: Seq<Node>, span: Span) -> Node {
    Node { kind: NodeKind::Func(name, args), span, has_err: any_err(args) }
}

/// Whether every tree of `args` is well formed.
pub open spec fn wf_all(args: Seq<Node>) -> bool
    decreases args,
{
    if args.len() == 0 {
        true
    } else {
        wf_all(args.drop_last()) && args.last().wf()
    }
}

/// Whether an error placeholder stands in any tree of `args`.
pub open spec fn error_node_in(args: Seq<Node>) -> bool
    decreases args,
{
    if args.len() == 0 {
        false
    } else {
        error_node_in(args.drop_last()) || args.last().contains_error_node()
    }
}

impl Node {
    /// The tree invariant: operators are of the right class, error flags are
    /// computed bottom-up, and composite spans are derived from their parts.
    pub open spec fn wf(self) -> bool
        decreases self,
    {
        match self.kind {
            NodeKind::Ident(_) => !self.has_err,
            NodeKind::Integer(_) => !self.has_err,
            NodeKind::Binary(op, l, r) => {
                &&& op.kind.is_binary_op()
                &&& l.wf()
                &&& r.wf()
                &&& self.has_err == (l.has_err || r.has_err)
                &&& self.span == span_merge(l.span, r.span)
            },
            NodeKind::Unary(op, e) => {
                &&& op.kind.is_unary_op()
                &&& e.wf()
                &&& self.has_err == e.has_err
                &&& self.span == span_merge(op.span, e.span)
            },
            NodeKind::ParenExpr(open, close, e) => {
                &&& e.wf()
                &&& self.has_err == e.has_err
                &&& self.span == Span { start: open.span.start, end: close.span.end }
            },
            NodeKind::Func(_, args) => {
                &&& wf_all(args)
                &&& self.has_err == any_err(args)
            },
            NodeKind::ErrorNode(_) => self.has_err,
        }
    }

    /// Whether an error placeholder stands anywhere in the tree.
    pub open spec fn contains_error_node(self) -> bool
        decreases self,
    {
        match self.kind {
            NodeKind::Ident(_) => false,
            NodeKind::Integer(_) => false,
            NodeKind::Binary(_, l, r) => l.contains_error_node() || r.contains_error_node(),
            NodeKind::Unary(_, e) => e.contains_error_node(),
            NodeKind::ParenExpr(_, _, e) => e.contains_error_node(),
            NodeKind::Func(_, args) => error_node_in(args),
            NodeKind::ErrorNode(_) => true,
        }
    }
}

/// In a well-formed tree the root's flag is clear exactly when no error
/// placeholder stands anywhere in it.
pub proof fn lemma_has_err_iff_error_node(n: Node)
    requires
        n.wf(),
    ensures
        n.has_err <==> n.contains_error_node(),
    decreases n,
{
    match n.kind {
        NodeKind::Binary(_, l, r) => {
            lemma_has_err_iff_error_node(*l);
            lemma_has_err_iff_error_node(*r);
            assert(n.contains_error_node() == (l.contains_error_node() || r.contains_error_node()));
            assert(n.has_err == (l.has_err || r.has_err));
        },
        NodeKind::Unary(_, e) => {
            lemma_has_err_iff_error_node(*e);
        },
        NodeKind::ParenExpr(_, _, e) => {
            lemma_has_err_iff_error_node(*e);
        },
        NodeKind::Func(_, args) => {
            lemma_args_err_iff_error_node(args);
        },
        _ => {},
    }
}

pub proof fn lemma_args_push(args: Seq<Node>, n: Node)
    ensures
        wf_all(args.push(n)) == (wf_all(args) && n.wf()),
        any_err(args.push(n)) == (any_err(args) || n.has_err),
{
    assert(args.push(n).drop_last() =~= args);
    if any_err(args.push(n)) {
        let i = choose|i: int| 0 <= i < args.push(n).len() && #[trigger] args.push(n)[i].has_err;
        if i < args.len() {
            assert(args[i].has_err);
        }
    }
    if any_err(args) {
        let i = choose|i: int| 0 <= i < args.len() && #[trigger] args[i].has_err;
        assert(args.push(n)[i].has_err);
    }
    if n.has_err {
        assert(args.push(n)[args.len() as int].has_err);
    }
}

proof fn lemma_args_err_iff_error_node(args: Seq<Node>)
    requires
        wf_all(args),
    ensures
        any_err(args) <==> error_node_in(args),
    decreases args,
{
    if args.len() > 0 {
        let init = args.drop_last();
        lemma_args_err_iff_error_node(init);
        lemma_has_err_iff_error_node(args.last());
        if any_err(args) {
            let i = choose|i: int| 0 <= i < args.len() && #[trigger] args[i].has_err;
            if i < args.len() - 1 {
                assert(init[i].has_err);
            }
        }
        if any_err(init) {
            let i = choose|i: int| 0 <= i < init.len() && #[trigger] init[i].has_err;
            assert(args[i].has_err);
        }
        if args.last().has_err {
            assert(args[args.len() - 1].has_err);
        }
    }
}

impl View for AST {
    type V = Node;

    open spec fn view(&self) -> Node
        decreases self,
    {
        let kind = match *self.kind {
            AstKind::Ident(name) => NodeKind::Ident(name@),
            AstKind::Integer(v) => NodeKind::Integer(v),
            AstKind::Binary(op, l, r) => NodeKind::Binary(op@, Box::new(l.view()), Box::new(r.view())),
            AstKind::Unary(op, e) => NodeKind::Unary(op@, Box::new(e.view())),
            AstKind::ParenExpr(o, c, e) => NodeKind::ParenExpr(o@, c@, Box::new(e.view())),
            AstKind::Func(name, args) => NodeKind::Func(name@, view_args(args@)),
            AstKind::ErrorNode(AstErrorKind::BadExpr(k)) => NodeKind::ErrorNode(k@),
        };
        Node { kind, span: self.span, has_err: self.has_err }
    }
}

} // verus!

verus! {

impl AST {
    /// A node of the given kind; its error flag is computed from its parts.
    pub fn new(kind: AstKind, span: Span) -> (r: AST)
        ensures
            *r.kind == kind,
            r.span == span,
            r.has_err == match kind {
                AstKind::Binary(_, l, rr) => l.has_err || rr.has_err,
                AstKind::Unary(_, e) => e.has_err,
                AstKind::ParenExpr(_, _, e) => e.has_err,
                AstKind::Func(_, args) => any_err(view_args(args@)),
                AstKind::ErrorNode(_) => true,
                _ => false,
            },
    {
        let has_err = match &kind {
            AstKind::Binary(_, l, r) => l.has_err || r.has_err,
            AstKind::Unary(_, e) => e.has_err,
            AstKind::ParenExpr(_, _, e) => e.has_err,
            AstKind::Func(_, args) => args_have_err(args),
            AstKind::ErrorNode(_) => true,
            _ => false,
        };
        AST { kind: Box::new(kind), span, has_err }
    }

    /// The node `lhs tok rhs`.
    pub fn binary(tok: Token, lhs: AST, rhs: AST) -> (r: AST)
        requires
            tok@.kind.is_binary_op(),
        ensures
            r@ == binary_node(tok@, lhs@, rhs@),
    {
        let span = merge_span(&lhs.span, &rhs.span);
        let has_err = lhs.has_err || rhs.has_err;
        AST { kind: Box::new(AstKind::Binary(tok, lhs, rhs)), span, has_err }
    }

    /// The node `tok expr`.
    pub fn unary(tok: Token, expr: AST) -> (r: AST)
        requires
            tok@.kind.is_unary_op(),
        ensures
            r@ == unary_node(tok@, expr@),
    {
        let span = merge_span(&tok.span, &expr.span);
        let has_err = expr.has_err;
        AST { kind: Box::new(AstKind::Unary(tok, expr)), span, has_err }
    }

    /// The placeholder for an operand that could not be parsed.
    pub fn err(err: AstError) -> (r: AST)
        ensures
            r@ == error_node(err.kind_view(), err.span),
    {
        let AstError { kind, span } = err;
        AST { kind: Box::new(AstKind::ErrorNode(kind)), span, has_err: true }
    }
}

/// Whether any of `args` stands for a syntax error.
fn args_have_err(args: &Vec<AST>) -> (r: bool)
    ensures
        r == any_err(view_args(args@)),
{
    let mut i: usize = 0;
    proof {
        lemma_view_args_len(args@);
    }
    while i < args.len()
        invariant
            i <= args.len(),
            view_args(args@).len() == args.len(),
            forall|j: int| 0 <= j < i ==> !(#[trigger] view_args(args@)[j]).has_err,
        decreases args.len() - i,
    {
        proof {
            lemma_view_args_index(args@, i as int);
        }
        if args[i].has_err {
            assert(view_args(args@)[i as int].has_err);
            return true;
        }
        i = i + 1;
    }
    proof {
        lemma_view_args_len(args@);
    }
    false
}

pub proof fn lemma_view_args_len(args: Seq<AST>)
    ensures
        view_args(args).len() == args.len(),
    decreases args.len(),
{
    if args.len() > 0 {
        lemma_view_args_len(args.drop_last());
        assert(view_args(args) == view_args(args.drop_last()).push(args.last()@));
    }
}

pub proof fn lemma_view_args_index(args: Seq<AST>, i: int)
    requires
        0 <= i < args.len(),
    ensures
        view_args(args).len() == args.len(),
        view_args(args)[i] == args[i]@,
    decreases args.len(),
{
    lemma_view_args_len(args);
    lemma_view_args_len(args.drop_last());
    assert(view_args(args) == view_args(args.drop_last()).push(args.last()@));
    if i < args.len() - 1 {
        lemma_view_args_index(args.drop_last(), i);
    }
}

pub proof fn lemma_view_args_push(args: Seq<AST>, a: AST)
    ensures
        view_args(args.push(a)) == view_args(args).push(a@),
{
    assert(args.push(a).drop_last() =~= args);
}

/// The error raised where an operand could not be parsed.
#[derive(Debug, PartialEq, Eq)]
pub struct AstError {
    pub kind: AstErrorKind,
    pub span: Span,
}

impl AstError {
    pub open spec fn kind_view(&self) -> Kind {
        match self.kind {
            AstErrorKind::BadExpr(k) => k@,
        }
    }

    pub fn new(kind: AstErrorKind, span: Span) -> (r: AstError)
        ensures
            r.kind == kind,
            r.span == span,
    {
        AstError { kind, span }
    }
}

} // verus!

verus! {

/// How a tree is displayed: every operation in parentheses, a parenthesized
/// expression with its delimiters apart, calls as `name(a, b)`.
pub open spec fn render(n: Node) -> Seq<char>
    decreases n,
{
    match n.kind {
        NodeKind::Ident(name) => name,
        NodeKind::Integer(v) => decimal(v as nat),
        NodeKind::Binary(op, l, r) => "("@ + render(*l) + " "@ + op.kind.text() + " "@ + render(*r)
            + ")"@,
        NodeKind::Unary(op, e) => "("@ + op.kind.text() + " "@ + render(*e) + ")"@,
        NodeKind::ParenExpr(open, close, e) => open.kind.text() + " "@ + render(*e) + " "@
            + close.kind.text(),
        NodeKind::Func(name, args) => name + "("@ + render_args(args) + ")"@,
        NodeKind::ErrorNode(k) => "BadExpr("@ + k.text() + ")"@,
    }
}

/// The renderings of `args`, joined by `", "`.
pub open spec fn render_args(args: Seq<Node>) -> Seq<char>
    decreases args,
{
    if args.len() == 0 {
        seq![]
    } else if args.len() == 1 {
        render(args.last())
    } else {
        render_args(args.drop_last()) + ", "@ + render(args.last())
    }
}

impl AST {
    /// Appends how this tree is displayed to `s`.
    pub fn push_rendering(&self, s: &mut String)
        ensures
            final(s)@ == old(s)@ + render(self@),
        decreases self, 1int,
    {
        let ghost s0 = s@;
        match &*self.kind {
            AstKind::Ident(name) => push_str(s, name.as_str()),
            AstKind::Integer(v) => push_decimal(s, *v),
            AstKind::Binary(op, l, r) => {
                push_str(s, "(");
                l.push_rendering(s);
                push_str(s, " ");
                op.kind.push_text(s);
                push_str(s, " ");
                r.push_rendering(s);
                push_str(s, ")");
            },
            AstKind::Unary(op, e) => {
                push_str(s, "(");
                op.kind.push_text(s);
                push_str(s, " ");
                e.push_rendering(s);
                push_str(s, ")");
            },
            AstKind::ParenExpr(open, close, e) => {
                open.kind.push_text(s);
                push_str(s, " ");
                e.push_rendering(s);
                push_str(s, " ");
                close.kind.push_text(s);
            },
            AstKind::Func(name, args) => {
                push_str(s, name.as_str());
                push_str(s, "(");
                push_args_rendering(args, s);
                push_str(s, ")");
            },
            AstKind::ErrorNode(AstErrorKind::BadExpr(k)) => {
                push_str(s, "BadExpr(");
                k.push_text(s);
                push_str(s, ")");
            },
        }
        assert(s@ =~= s0 + render(self@));
    }

    /// How this tree is displayed.
    pub fn to_string(&self) -> (r: String)
        ensures
            r@ == render(self@),
    {
        let mut s = String::new();
        self.push_rendering(&mut s);
        assert(s@ =~= render(self@));
        s
    }
}

/// Appends the renderings of `args`, joined by `", "`, to `s`.
fn push_args_rendering(args: &Vec<AST>, s: &mut String)
    ensures
        final(s)@ == old(s)@ + render_args(view_args(args@)),
    decreases args, 0int,
{
    let ghost s0 = s@;
    let mut i: usize = 0;
    proof {
        lemma_view_args_len(args@);
    }
    assert(view_args(args@).subrange(0, 0) =~= Seq::<Node>::empty());
    while i < args.len()
        invariant
            i <= args.len(),
            view_args(args@).len() == args.len(),
            s@ == s0 + render_args(view_args(args@).subrange(0, i as int)),
        decreases args.len() - i,
    {
        proof {
            lemma_view_args_index(args@, i as int);
            assert(decreases_to!(args => args[i as int]));
        }
        if i > 0 {
            push_str(s, ", ");
        }
        args[i].push_rendering(s);
        proof {
            let sub = view_args(args@).subrange(0, i + 1);
            assert(sub.drop_last() =~= view_args(args@).subrange(0, i as int));
            assert(sub.last() == args[i as int]@);
            assert(s@ =~= s0 + render_args(sub));
        }
        i = i + 1;
    }
    assert(view_args(args@).subrange(0, args.len() as int) =~= view_args(args@));
}

} // verus!
