use vstd::prelude::*;

use crate::ast::{
    binary_node, error_node, func_node, leaf_node, lemma_args_push, lemma_view_args_push,
    paren_node, unary_node, view_args, wf_all, Node, NodeKind,
};
use crate::error::{ErrCode, Error, ErrorView};
use crate::text::push_str;
use crate::token::{Kind, Tok};
use crate::Span;

pub use crate::ast::{AstError, AstErrorKind, AstKind, AST};
pub use crate::lexer::{lex, LexerResult};
pub use crate::token::{Token, TokenKind};

verus! {

/// How many syntax errors one parse reports at most.
pub const MAX_N_ERRORS: usize = 1;

/// Where the parser stands in the tokens, and the syntax errors reported so far.
pub struct PState {
    pub pos: int,
    pub errs: Seq<ErrorView>,
}

/// What parsing an operand position gives: a tree, or the offending token's kind and span.
pub type Parsed = Result<Node, (Kind, Span)>;

pub open spec fn valid(ts: Seq<Tok>, st: PState) -> bool {
    0 <= st.pos < ts.len()
}

/// Moves to the next token; the last token is never left.
pub open spec fn advance(ts: Seq<Tok>, st: PState) -> PState {
    if st.pos + 1 < ts.len() {
        PState { pos: st.pos + 1, errs: st.errs }
    } else {
        st
    }
}

pub open spec fn syntax_error(span: Span, msg: Seq<char>) -> ErrorView {
    ErrorView { pos: span, msg, code: ErrCode::Syntax }
}

/// Records a syntax error; once the cap is reached, jumps to the last token instead.
pub open spec fn report(ts: Seq<Tok>, st: PState, span: Span, msg: Seq<char>) -> PState {
    if st.errs.len() >= MAX_N_ERRORS {
        PState { pos: ts.len() - 1, errs: st.errs }
    } else {
        PState { pos: st.pos, errs: st.errs.push(syntax_error(span, msg)) }
    }
}

pub open spec fn expected_msg(k: Kind, found: Kind) -> Seq<char> {
    "expected token: '"@ + k.text() + "', found: "@ + found.text()
}

pub open spec fn unary_msg(op: Kind) -> Seq<char> {
    "bad operand for unary '"@ + op.text() + "'"@
}

pub open spec fn rhs_msg(op: Kind) -> Seq<char> {
    "bad rhs for binary '"@ + op.text() + "'"@
}

pub open spec fn top_msg() -> Seq<char> {
    "could not parse expression"@
}

/// Consumes the current token, reporting an error first if it is not of kind `k`;
/// gives the token consumed.
pub open spec fn expect(ts: Seq<Tok>, st: PState, k: Kind) -> (Tok, PState) {
    let c = ts[st.pos];
    let st1 = if c.kind != k {
        report(ts, st, c.span, expected_msg(k, c.kind))
    } else {
        st
    };
    (ts[st1.pos], advance(ts, st1))
}

/// Reports a failed operand under the context `m` and puts a placeholder in its place.
pub open spec fn recover(ts: Seq<Tok>, st: PState, bad: (Kind, Span), m: Seq<char>) -> (
    Node,
    PState,
) {
    (error_node(bad.0, bad.1), report(ts, st, bad.1, m + ": "@ + bad.0.text()))
}

pub open spec fn or_recover(ts: Seq<Tok>, r: (Parsed, PState), m: Seq<char>) -> (Node, PState) {
    match r.0 {
        Ok(n) => (n, r.1),
        Err(bad) => recover(ts, r.1, bad, m),
    }
}

/// An operand: an identifier, a call, an integer or a parenthesized expression.
pub open spec fn parse_operand_spec(ts: Seq<Tok>, st: PState) -> (Parsed, PState)
    decreases ts.len() - st.pos, 2int,
{
    if !valid(ts, st) {
        (Err((Kind::EOF, Span { start: 0, end: 0 })), st)
    } else {
        let t = ts[st.pos];
        match t.kind {
            Kind::Ident(name) => {
                let st1 = advance(ts, st);
                if ts[st1.pos].kind == Kind::OpenParen {
                    parse_func_args_spec(ts, st1, name, t.span.start)
                } else {
                    (Ok(leaf_node(NodeKind::Ident(name), t.span)), st1)
                }
            },
            Kind::Integer(v) => (Ok(leaf_node(NodeKind::Integer(v), t.span)), advance(ts, st)),
            Kind::OpenParen => {
                let (open, st1) = expect(ts, st, Kind::OpenParen);
                if st1.pos > st.pos {
                    let (inner, st2) = parse_expr_spec(ts, st1);
                    let (close, st3) = expect(ts, st2, Kind::CloseParen);
                    (Ok(paren_node(open, close, inner)), st3)
                } else {
                    (Err((t.kind, t.span)), st1)
                }
            },
            _ => (Err((t.kind, t.span)), advance(ts, st)),
        }
    }
}

/// The parenthesized arguments of a call of `name`, which starts at byte `start`.
pub open spec fn parse_func_args_spec(ts: Seq<Tok>, st: PState, name: Seq<char>, start: usize) -> (
    Parsed,
    PState,
)
    decreases ts.len() - st.pos, 1int,
{
    if !valid(ts, st) {
        (Err((Kind::EOF, Span { start: 0, end: 0 })), st)
    } else {
        let (_, st1) = expect(ts, st, Kind::OpenParen);
        if st1.pos > st.pos {
            let (args, st2) = parse_args_spec(ts, st1, seq![]);
            let (close, st3) = expect(ts, st2, Kind::CloseParen);
            (Ok(func_node(name, args, Span { start, end: close.span.end })), st3)
        } else {
            (Err((Kind::OpenParen, ts[st.pos].span)), st1)
        }
    }
}

/// Comma-separated expressions up to a closing parenthesis, appended to `acc`.
pub open spec fn parse_args_spec(ts: Seq<Tok>, st: PState, acc: Seq<Node>) -> (Seq<Node>, PState)
    decreases ts.len() - st.pos, 7int,
{
    if !valid(ts, st) || ts[st.pos].kind == Kind::CloseParen {
        (acc, st)
    } else {
        let (e, st1) = parse_expr_spec(ts, st);
        let acc1 = acc.push(e);
        if ts[st1.pos].kind != Kind::Comma {
            (acc1, st1)
        } else {
            let st2 = advance(ts, st1);
            if st2.pos > st.pos && valid(ts, st2) {
                parse_args_spec(ts, st2, acc1)
            } else {
                (acc1, st2)
            }
        }
    }
}

/// An operand, possibly under a prefix `+` or `-`.
pub open spec fn parse_unary_spec(ts: Seq<Tok>, st: PState) -> (Parsed, PState)
    decreases ts.len() - st.pos, 3int,
{
    if !valid(ts, st) {
        (Err((Kind::EOF, Span { start: 0, end: 0 })), st)
    } else {
        let t = ts[st.pos];
        if t.kind.is_unary_op() {
            let st1 = advance(ts, st);
            let (e, st2) = or_recover(ts, parse_operand_spec(ts, st1), unary_msg(t.kind));
            (Ok(unary_node(t, e)), st2)
        } else {
            parse_operand_spec(ts, st)
        }
    }
}

/// Folds `lhs` with the operators of precedence at least `p` that follow it.
pub open spec fn binary_loop_spec(ts: Seq<Tok>, st: PState, lhs: Node, p: u32) -> (Parsed, PState)
    decreases ts.len() - st.pos, 4int,
{
    if !valid(ts, st) {
        (Ok(lhs), st)
    } else {
        let op = ts[st.pos];
        let q = op.kind.precedence();
        if q < p {
            (Ok(lhs), st)
        } else {
            let st1 = advance(ts, st);
            if st1.pos > st.pos {
                let (rhs, st2) = or_recover(
                    ts,
                    parse_binary_spec(ts, st1, (q + 1) as u32),
                    rhs_msg(op.kind),
                );
                let node = binary_node(op, lhs, rhs);
                if st2.pos > st.pos && valid(ts, st2) {
                    binary_loop_spec(ts, st2, node, p)
                } else {
                    (Ok(node), st2)
                }
            } else {
                (Ok(lhs), st)
            }
        }
    }
}

/// An expression whose operators all have precedence at least `p`; operators of
/// equal precedence group to the left.
pub open spec fn parse_binary_spec(ts: Seq<Tok>, st: PState, p: u32) -> (Parsed, PState)
    decreases ts.len() - st.pos, 5int,
{
    if !valid(ts, st) {
        (Err((Kind::EOF, Span { start: 0, end: 0 })), st)
    } else {
        let (r, st1) = parse_unary_spec(ts, st);
        match r {
            Err(bad) => (Err(bad), st1),
            Ok(u) => if st1.pos >= st.pos && valid(ts, st1) {
                binary_loop_spec(ts, st1, u, p)
            } else {
                (Ok(u), st1)
            },
        }
    }
}

/// A whole expression; a failure becomes a placeholder. No tokens give the literal 0.
pub open spec fn parse_expr_spec(ts: Seq<Tok>, st: PState) -> (Node, PState)
    decreases ts.len() - st.pos, 6int,
{
    if ts.len() == 0 {
        (leaf_node(NodeKind::Integer(0), Span { start: 0, end: 0 }), st)
    } else if !valid(ts, st) {
        (leaf_node(NodeKind::Integer(0), Span { start: 0, end: 0 }), st)
    } else {
        or_recover(ts, parse_binary_spec(ts, st, 1), top_msg())
    }
}

/// The tokens the parser works on: `ts`, closed by an end marker if it lacks one.
pub open spec fn sealed(ts: Seq<Tok>) -> Seq<Tok> {
    if ts.len() > 0 && ts.last().kind != Kind::EOF {
        ts.push(Tok { kind: Kind::EOF, span: ts.last().span })
    } else {
        ts
    }
}

pub open spec fn start_state() -> PState {
    PState { pos: 0, errs: seq![] }
}

/// The tree that parsing `ts` from the start gives, and the syntax errors reported.
pub open spec fn parse_tokens(ts: Seq<Tok>) -> (Node, Seq<ErrorView>) {
    let (n, st) = parse_expr_spec(sealed(ts), start_state());
    (n, st.errs)
}

/// A parser over a token sequence: a cursor on the current token and the
/// syntax errors reported so far.
pub struct AstFile {
    tokens: Vec<Token>,
    cur: usize,
    pub errors: Vec<Error>,
}

pub open spec fn views_of_tokens(ts: Seq<Token>) -> Seq<Tok> {
    ts.map_values(|t: Token| t@)
}

pub open spec fn views_of_errors(es: Seq<Error>) -> Seq<ErrorView> {
    es.map_values(|e: Error| e@)
}

impl AstFile {
    /// The tokens the parser works on.
    pub closed spec fn toks(&self) -> Seq<Tok> {
        views_of_tokens(self.tokens@)
    }

    /// The cursor's index and the syntax errors in `errors`.
    pub closed spec fn state(&self) -> PState {
        PState { pos: self.cur as int, errs: views_of_errors(self.errors@) }
    }

    /// The tokens end with an end marker, the cursor stands on one of them, and
    /// no more errors than the cap, all of them syntax errors, have been reported.
    pub closed spec fn wf(&self) -> bool {
        &&& self.tokens.len() > 0 ==> self.tokens@.last()@.kind == Kind::EOF
        &&& self.tokens.len() > 0 ==> self.cur < self.tokens.len()
        &&& self.errors.len() <= MAX_N_ERRORS
        &&& forall|i: int| 0 <= i < self.errors.len() ==> (#[trigger] self.errors@[i]).code == ErrCode::Syntax
    }

    /// A parser at the first of `tokens`, which gets an end marker if it lacks one.
    pub fn from_tokens(tokens: Vec<Token>) -> (r: AstFile)
        ensures
            r.wf(),
            r.toks() == sealed(views_of_tokens(tokens@)),
            r.state() == start_state(),
    {
        let mut tokens = tokens;
        let n = tokens.len();
        let ghost ts0 = views_of_tokens(tokens@);
        if n > 0 {
            let needs_end = match tokens[n - 1].kind {
                TokenKind::EOF => false,
                _ => true,
            };
            if needs_end {
                let span = tokens[n - 1].span;
                tokens.push(Token { kind: TokenKind::EOF, span });
                assert(views_of_tokens(tokens@) =~= sealed(ts0));
            }
        }
        let r = AstFile { tokens, cur: 0, errors: Vec::new() };
        assert(r.state().errs =~= Seq::<ErrorView>::empty());
        r
    }

    fn jump_to_end(&mut self)
        requires
            old(self).tokens.len() > 0,
        ensures
            final(self).tokens == old(self).tokens,
            final(self).errors == old(self).errors,
            final(self).cur == old(self).tokens.len() - 1,
    {
        self.cur = self.tokens.len() - 1;
    }

    fn syntax_err(&mut self, span: &Span, msg: String)
        requires
            old(self).wf(),
            old(self).tokens.len() > 0,
        ensures
            old(self).steps_to(final(self)),
            final(self).state() == report(old(self).toks(), old(self).state(), *span, msg@),
    {
        if self.errors.len() >= MAX_N_ERRORS {
            self.jump_to_end();
            return ;
        }
        let ghost es0 = views_of_errors(self.errors@);
        let e = ErrCode::Syntax.to_err(span, msg);
        self.errors.push(e);
        assert(views_of_errors(self.errors@) =~= es0.push(syntax_error(*span, msg@)));
    }

    /// Advances to the next token and gives the token it stood on.
    fn advance_token(&mut self) -> (r: Token)
        requires
            old(self).wf(),
            old(self).tokens.len() > 0,
        ensures
            old(self).steps_to(final(self)),
            r@ == old(self).toks()[old(self).cur as int],
            final(self).state() == advance(old(self).toks(), old(self).state()),
    {
        let prev = self.tokens[self.cur].duplicate();
        if self.cur + 1 < self.tokens.len() {
            self.cur = self.cur + 1;
        }
        prev
    }

    /// Consumes the current token, reporting an error first if it is not of kind `kind`.
    fn expect_token(&mut self, kind: TokenKind) -> (r: Token)
        requires
            old(self).wf(),
            old(self).tokens.len() > 0,
        ensures
            old(self).steps_to(final(self)),
            (r@, final(self).state()) == expect(old(self).toks(), old(self).state(), kind@),
    {
        if !self.tokens[self.cur].kind.same_as(&kind) {
            let span = self.tokens[self.cur].span;
            let mut msg = String::new();
            push_str(&mut msg, "expected token: '");
            kind.push_text(&mut msg);
            push_str(&mut msg, "', found: ");
            self.tokens[self.cur].kind.push_text(&mut msg);
            proof {
                let c = self.toks()[self.cur as int];
                assert(msg@ =~= expected_msg(kind@, c.kind));
            }
            self.syntax_err(&span, msg);
        }
        self.advance_token()
    }

    fn current(&self) -> (r: &Token)
        requires
            self.wf(),
            self.tokens.len() > 0,
        ensures
            r@ == self.toks()[self.state().pos],
    {
        &self.tokens[self.cur]
    }
}

pub open spec fn res_view(r: Result<AST, AstError>) -> Parsed {
    match r {
        Ok(a) => Ok(a@),
        Err(e) => Err((e.kind_view(), e.span)),
    }
}

impl AstFile {
    /// What holds of every step of the parser: it keeps its tokens and its
    /// invariant, never moves back and never forgets an error.
    pub closed spec fn steps_to(&self, next: &AstFile) -> bool {
        &&& next.wf()
        &&& next.tokens@ == self.tokens@
        &&& next.cur >= self.cur
        &&& next.errors.len() >= self.errors.len()
    }

    /// How many tokens lie ahead of the cursor.
    pub closed spec fn remaining(&self) -> int {
        self.tokens.len() - self.cur
    }

    /// Whether there is any token at all.
    pub closed spec fn has_tokens(&self) -> bool {
        self.tokens.len() > 0
    }

    /// The syntax errors reported so far, in order.
    pub fn errors(&self) -> (r: &Vec<Error>)
        ensures
            views_of_errors(r@) == self.state().errs,
            r@.len() == self.state().errs.len(),
            forall|i: int| 0 <= i < r@.len() ==> (#[trigger] r@[i])@ == self.state().errs[i],
    {
        &self.errors
    }

    /// The syntax errors reported so far, in order.
    pub fn into_errors(self) -> (r: Vec<Error>)
        ensures
            views_of_errors(r@) == self.state().errs,
            r@.len() == self.state().errs.len(),
            forall|i: int| 0 <= i < r@.len() ==> (#[trigger] r@[i])@ == self.state().errs[i],
    {
        self.errors
    }

    /// The tokens the parser works on.
    pub fn tokens(&self) -> (r: &Vec<Token>)
        ensures
            views_of_tokens(r@) == self.toks(),
            r@.len() == self.toks().len(),
            forall|i: int| 0 <= i < r@.len() ==> (#[trigger] r@[i])@ == self.toks()[i],
    {
        &self.tokens
    }
}

/// What a parse of an operand position promises besides its exact result: the tree
/// is well formed, and a tree flagged as erroneous comes with a reported error.
pub open spec fn parsed_ok(r: Parsed, errs: Seq<ErrorView>) -> bool {
    r is Ok ==> (r->Ok_0.wf() && (r->Ok_0.has_err ==> errs.len() > 0))
}

/// A token other than the end marker is never the last one.
proof fn lemma_not_last(f: AstFile)
    requires
        f.wf(),
        f.has_tokens(),
        f.toks()[f.cur as int].kind != Kind::EOF,
    ensures
        f.cur + 1 < f.tokens.len(),
{
    assert(f.toks()[f.tokens.len() - 1] == f.tokens@.last()@);
}

impl AstError {
    /// Reports this error under the context `m` and gives the placeholder node.
    fn syntax_err(self, f: &mut AstFile, m: String) -> (r: AST)
        requires
            old(f).wf(),
            old(f).has_tokens(),
        ensures
            old(f).steps_to(final(f)),
            (r@, final(f).state()) == recover(
                old(f).toks(),
                old(f).state(),
                (self.kind_view(), self.span),
                m@,
            ),
            r@.wf(),
            final(f).errors.len() > 0,
    {
        let mut msg = m;
        push_str(&mut msg, ": ");
        match &self.kind {
            AstErrorKind::BadExpr(k) => k.push_text(&mut msg),
        }
        let span = self.span;
        f.syntax_err(&span, msg);
        assert(views_of_errors(f.errors@).len() == f.errors.len());
        AST::err(self)
    }
}

fn unary_message(op: &TokenKind) -> (r: String)
    ensures
        r@ == unary_msg(op@),
{
    let mut m = String::new();
    push_str(&mut m, "bad operand for unary '");
    op.push_text(&mut m);
    push_str(&mut m, "'");
    assert(m@ =~= unary_msg(op@));
    m
}

fn rhs_message(op: &TokenKind) -> (r: String)
    ensures
        r@ == rhs_msg(op@),
{
    let mut m = String::new();
    push_str(&mut m, "bad rhs for binary '");
    op.push_text(&mut m);
    push_str(&mut m, "'");
    assert(m@ =~= rhs_msg(op@));
    m
}

/// The arguments of a call of `name`, from its opening parenthesis.
fn parse_func_args(name: String, start_span: usize, f: &mut AstFile) -> (r: Result<AST, AstError>)
    requires
        old(f).wf(),
        old(f).has_tokens(),
        old(f).toks()[old(f).state().pos].kind == Kind::OpenParen,
    ensures
        old(f).steps_to(final(f)),
        (res_view(r), final(f).state()) == parse_func_args_spec(
            old(f).toks(),
            old(f).state(),
            name@,
            start_span,
        ),
        parsed_ok(res_view(r), final(f).state().errs),
    decreases old(f).remaining(), 1int,
{
    let ghost ts = old(f).toks();
    let ghost st0 = old(f).state();
    let ghost e0 = old(f).errors.len();
    proof {
        lemma_not_last(*f);
    }
    let _ = f.expect_token(TokenKind::OpenParen);
    let ghost st1 = f.state();
    let ghost target = parse_args_spec(ts, st1, seq![]);
    let mut args: Vec<AST> = Vec::new();
    let mut done = false;
    while !done
        invariant
            f.wf(),
            f.has_tokens(),
            f.toks() == ts,
            f.tokens@ == old(f).tokens@,
            st0 == old(f).state(),
            ts == old(f).toks(),
            f.cur >= st1.pos,
            st1.pos > st0.pos,
            f.errors.len() >= e0,
            !done ==> parse_args_spec(ts, f.state(), view_args(args@)) == target,
            done ==> (view_args(args@), f.state()) == target,
            wf_all(view_args(args@)),
            crate::ast::any_err(view_args(args@)) ==> f.errors.len() > 0,
        decreases f.tokens.len() - f.cur, if done { 0int } else { 1int },
    {
        if f.current().kind.same_as(&TokenKind::CloseParen) {
            done = true;
        } else {
            let e = parse_expr(f);
            proof {
                lemma_view_args_push(args@, e);
                lemma_args_push(view_args(args@), e@);
            }
            args.push(e);
            if !f.current().kind.same_as(&TokenKind::Comma) {
                done = true;
            } else {
                proof {
                    lemma_not_last(*f);
                }
                f.advance_token();
            }
        }
    }
    let close = f.expect_token(TokenKind::CloseParen);
    let span = Span { start: start_span, end: close.span.end };
    Ok(AST::new(AstKind::Func(name, args), span))
}

/// An identifier, a call, an integer or a parenthesized expression; any other
/// token is consumed and given back as the error.
fn parse_operand(f: &mut AstFile) -> (r: Result<AST, AstError>)
    requires
        old(f).wf(),
        old(f).has_tokens(),
    ensures
        old(f).steps_to(final(f)),
        (res_view(r), final(f).state()) == parse_operand_spec(old(f).toks(), old(f).state()),
        parsed_ok(res_view(r), final(f).state().errs),
    decreases old(f).remaining(), 2int,
{
    let t = f.current().duplicate();
    let span = t.span;
    match t.kind {
        TokenKind::Ident(name) => {
            f.advance_token();
            if f.current().kind.same_as(&TokenKind::OpenParen) {
                parse_func_args(name, span.start, f)
            } else {
                Ok(AST::new(AstKind::Ident(name), span))
            }
        },
        TokenKind::Integer(v) => {
            f.advance_token();
            Ok(AST::new(AstKind::Integer(v), span))
        },
        TokenKind::OpenParen => {
            proof {
                lemma_not_last(*f);
            }
            let open = f.expect_token(TokenKind::OpenParen);
            let operand = parse_expr(f);
            let close = f.expect_token(TokenKind::CloseParen);
            let span = Span { start: open.span.start, end: close.span.end };
            Ok(AST::new(AstKind::ParenExpr(open, close, operand), span))
        },
        kind => {
            f.advance_token();
            Err(AstError::new(AstErrorKind::BadExpr(kind), span))
        },
    }
}

/// An operand, possibly under a prefix `+` or `-`.
fn parse_unary_expr(f: &mut AstFile) -> (r: Result<AST, AstError>)
    requires
        old(f).wf(),
        old(f).has_tokens(),
    ensures
        old(f).steps_to(final(f)),
        (res_view(r), final(f).state()) == parse_unary_spec(old(f).toks(), old(f).state()),
        parsed_ok(res_view(r), final(f).state().errs),
    decreases old(f).remaining(), 3int,
{
    if f.current().kind.is_unary_op() {
        let op = f.advance_token();
        let operand = match parse_operand(f) {
            Ok(a) => a,
            Err(bad) => {
                let m = unary_message(&op.kind);
                bad.syntax_err(f, m)
            },
        };
        Ok(AST::unary(op, operand))
    } else {
        parse_operand(f)
    }
}

/// An expression whose operators all bind at least as tightly as `prec_in`.
fn parse_binary_expr(f: &mut AstFile, prec_in: u32) -> (r: Result<AST, AstError>)
    requires
        old(f).wf(),
        old(f).has_tokens(),
        1 <= prec_in <= 5,
    ensures
        old(f).steps_to(final(f)),
        (res_view(r), final(f).state()) == parse_binary_spec(old(f).toks(), old(f).state(), prec_in),
        parsed_ok(res_view(r), final(f).state().errs),
    decreases old(f).remaining(), 5int,
{
    let ghost ts = old(f).toks();
    let ghost st0 = old(f).state();
    let ghost e0 = old(f).errors.len();
    let mut expr = match parse_unary_expr(f) {
        Ok(a) => a,
        Err(e) => {
            return Err(e);
        },
    };
    let ghost target = binary_loop_spec(ts, f.state(), expr@, prec_in);
    let mut done = false;
    while !done
        invariant
            f.wf(),
            f.has_tokens(),
            f.toks() == ts,
            f.tokens@ == old(f).tokens@,
            st0 == old(f).state(),
            ts == old(f).toks(),
            f.cur >= st0.pos,
            f.errors.len() >= e0,
            1 <= prec_in <= 5,
            !done ==> binary_loop_spec(ts, f.state(), expr@, prec_in) == target,
            done ==> (Ok::<Node, (Kind, Span)>(expr@), f.state()) == target,
            expr@.wf(),
            expr.has_err ==> f.errors.len() > 0,
        decreases f.tokens.len() - f.cur, if done { 0int } else { 1int },
    {
        let op = f.current().duplicate();
        let q = op.kind.precedence();
        if q < prec_in {
            done = true;
        } else {
            proof {
                lemma_not_last(*f);
            }
            f.advance_token();
            let rhs = match parse_binary_expr(f, q + 1) {
                Ok(a) => a,
                Err(bad) => {
                    let m = rhs_message(&op.kind);
                    bad.syntax_err(f, m)
                },
            };
            expr = AST::binary(op, expr, rhs);
        }
    }
    Ok(expr)
}

/// Parses one expression from the cursor; where no expression can be parsed the
/// failure is reported and a placeholder stands in the tree.
pub fn parse_expr(f: &mut AstFile) -> (r: AST)
    requires
        old(f).wf(),
    ensures
        old(f).steps_to(final(f)),
        final(f).toks() == old(f).toks(),
        (r@, final(f).state()) == parse_expr_spec(old(f).toks(), old(f).state()),
        r@.wf(),
        r.has_err ==> final(f).state().errs.len() > 0,
        final(f).state().errs.len() <= MAX_N_ERRORS,
        forall|i: int|
            0 <= i < final(f).state().errs.len() ==> (#[trigger] final(f).state().errs[i]).code
                == ErrCode::Syntax,
    decreases old(f).remaining(), 6int,
{
    if f.tokens.len() == 0 {
        proof {
            lemma_error_codes(*f);
        }
        return AST::new(AstKind::Integer(0), Span { start: 0, end: 0 });
    }
    let r = match parse_binary_expr(f, 1) {
        Ok(a) => a,
        Err(bad) => bad.syntax_err(f, "could not parse expression".to_owned()),
    };
    proof {
        lemma_error_codes(*f);
    }
    r
}

proof fn lemma_error_codes(f: AstFile)
    requires
        f.wf(),
    ensures
        forall|i: int|
            0 <= i < f.state().errs.len() ==> (#[trigger] f.state().errs[i]).code == ErrCode::Syntax,
{
    assert forall|i: int| 0 <= i < f.state().errs.len() implies (
    #[trigger] f.state().errs[i]).code == ErrCode::Syntax by {
        assert(f.state().errs[i] == f.errors@[i]@);
    }
}

} // verus!
