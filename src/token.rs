use vstd::prelude::*;

use crate::text::{decimal, push_decimal, push_str};
use crate::Span;

verus! {

/// The kinds of token the tokenizer produces.
#[derive(Clone, Debug, PartialEq, Eq)]
pub enum TokenKind {
    Mul,
    Div,
    Add,
    Sub,
    Pow,
    CmpEq,
    CmpGt,
    CmpLt,
    CmpGtEq,
    CmpLtEq,
    OpenParen,
    CloseParen,
    OpenCurly,
    CloseCurly,
    Colon,
    Comma,
    Eq,
    Ident(String),
    Integer(u32),
    NL,
    EOF,
}

/// The mathematical value of a token kind: an identifier is its characters.
pub enum Kind {
    Mul,
    Div,
    Add,
    Sub,
    Pow,
    CmpEq,
    CmpGt,
    CmpLt,
    CmpGtEq,
    CmpLtEq,
    OpenParen,
    CloseParen,
    OpenCurly,
    CloseCurly,
    Colon,
    Comma,
    Eq,
    Ident(Seq<char>),
    Integer(u32),
    NL,
    EOF,
}

impl Kind {
    /// Binding strength of a binary operator; 0 for everything else.
    pub open spec fn precedence(self) -> u32 {
        match self {
            Kind::CmpEq | Kind::CmpGt | Kind::CmpLt | Kind::CmpGtEq | Kind::CmpLtEq => 1,
            Kind::Add | Kind::Sub => 2,
            Kind::Mul | Kind::Div => 3,
            Kind::Pow => 4,
            _ => 0,
        }
    }

    pub open spec fn is_binary_op(self) -> bool {
        match self {
            Kind::Add | Kind::Sub | Kind::Mul | Kind::Div | Kind::Pow | Kind::CmpEq
            | Kind::CmpGt | Kind::CmpLt | Kind::CmpGtEq | Kind::CmpLtEq => true,
            _ => false,
        }
    }

    pub open spec fn is_unary_op(self) -> bool {
        match self {
            Kind::Add | Kind::Sub => true,
            _ => false,
        }
    }

    /// How the token is displayed.
    pub open spec fn text(self) -> Seq<char> {
        match self {
            Kind::Mul => "*"@,
            Kind::Div => "/"@,
            Kind::Add => "+"@,
            Kind::Sub => "-"@,
            Kind::Pow => "^"@,
            Kind::CmpEq => "=="@,
            Kind::CmpGt => ">"@,
            Kind::CmpLt => "<"@,
            Kind::CmpGtEq => ">="@,
            Kind::CmpLtEq => "<="@,
            Kind::OpenParen => "("@,
            Kind::CloseParen => ")"@,
            Kind::OpenCurly => "{"@,
            Kind::CloseCurly => "}"@,
            Kind::Colon => ":"@,
            Kind::Comma => ","@,
            Kind::Eq => "="@,
            Kind::Ident(name) => name,
            Kind::Integer(v) => decimal(v as nat),
            Kind::NL => "\n"@,
            Kind::EOF => "EOF"@,
        }
    }
}

impl View for TokenKind {
    type V = Kind;

    open spec fn view(&self) -> Kind {
        match self {
            TokenKind::Mul => Kind::Mul,
            TokenKind::Div => Kind::Div,
            TokenKind::Add => Kind::Add,
            TokenKind::Sub => Kind::Sub,
            TokenKind::Pow => Kind::Pow,
            TokenKind::CmpEq => Kind::CmpEq,
            TokenKind::CmpGt => Kind::CmpGt,
            TokenKind::CmpLt => Kind::CmpLt,
            TokenKind::CmpGtEq => Kind::CmpGtEq,
            TokenKind::CmpLtEq => Kind::CmpLtEq,
            TokenKind::OpenParen => Kind::OpenParen,
            TokenKind::CloseParen => Kind::CloseParen,
            TokenKind::OpenCurly => Kind::OpenCurly,
            TokenKind::CloseCurly => Kind::CloseCurly,
            TokenKind::Colon => Kind::Colon,
            TokenKind::Comma => Kind::Comma,
            TokenKind::Eq => Kind::Eq,
            TokenKind::Ident(name) => Kind::Ident(name@),
            TokenKind::Integer(v) => Kind::Integer(*v),
            TokenKind::NL => Kind::NL,
            TokenKind::EOF => Kind::EOF,
        }
    }
}

impl TokenKind {
    pub fn precedence(&self) -> (r: u32)
        ensures
            r == self@.precedence(),
    {
        match self {
            TokenKind::CmpEq | TokenKind::CmpGt | TokenKind::CmpLt | TokenKind::CmpGtEq
            | TokenKind::CmpLtEq => 1,
            TokenKind::Add | TokenKind::Sub => 2,
            TokenKind::Mul | TokenKind::Div => 3,
            TokenKind::Pow => 4,
            _ => 0,
        }
    }

    pub fn is_binary_op(&self) -> (r: bool)
        ensures
            r == self@.is_binary_op(),
    {
        match self {
            TokenKind::Add | TokenKind::Sub | TokenKind::Mul | TokenKind::Div | TokenKind::Pow
            | TokenKind::CmpEq | TokenKind::CmpGt | TokenKind::CmpLt | TokenKind::CmpGtEq
            | TokenKind::CmpLtEq => true,
            _ => false,
        }
    }

    pub fn is_unary_op(&self) -> (r: bool)
        ensures
            r == self@.is_unary_op(),
    {
        match self {
            TokenKind::Add | TokenKind::Sub => true,
            _ => false,
        }
    }

    /// Whether two kinds are the same, identifiers by their names.
    pub fn same_as(&self, other: &TokenKind) -> (r: bool)
        ensures
            r == (self@ == other@),
    {
        match other {
            TokenKind::Mul => matches!(self, TokenKind::Mul),
            TokenKind::Div => matches!(self, TokenKind::Div),
            TokenKind::Add => matches!(self, TokenKind::Add),
            TokenKind::Sub => matches!(self, TokenKind::Sub),
            TokenKind::Pow => matches!(self, TokenKind::Pow),
            TokenKind::CmpEq => matches!(self, TokenKind::CmpEq),
            TokenKind::CmpGt => matches!(self, TokenKind::CmpGt),
            TokenKind::CmpLt => matches!(self, TokenKind::CmpLt),
            TokenKind::CmpGtEq => matches!(self, TokenKind::CmpGtEq),
            TokenKind::CmpLtEq => matches!(self, TokenKind::CmpLtEq),
            TokenKind::OpenParen => matches!(self, TokenKind::OpenParen),
            TokenKind::CloseParen => matches!(self, TokenKind::CloseParen),
            TokenKind::OpenCurly => matches!(self, TokenKind::OpenCurly),
            TokenKind::CloseCurly => matches!(self, TokenKind::CloseCurly),
            TokenKind::Colon => matches!(self, TokenKind::Colon),
            TokenKind::Comma => matches!(self, TokenKind::Comma),
            TokenKind::Eq => matches!(self, TokenKind::Eq),
            TokenKind::NL => matches!(self, TokenKind::NL),
            TokenKind::EOF => matches!(self, TokenKind::EOF),
            TokenKind::Ident(b) => match self {
                TokenKind::Ident(a) => a.eq(b),
                _ => false,
            },
            TokenKind::Integer(b) => match self {
                TokenKind::Integer(a) => *a == *b,
                _ => false,
            },
        }
    }

    /// A copy of this kind; an identifier's name is copied character for character.
    pub fn duplicate(&self) -> (r: TokenKind)
        ensures
            r@ == self@,
    {
        match self {
            TokenKind::Mul => TokenKind::Mul,
            TokenKind::Div => TokenKind::Div,
            TokenKind::Add => TokenKind::Add,
            TokenKind::Sub => TokenKind::Sub,
            TokenKind::Pow => TokenKind::Pow,
            TokenKind::CmpEq => TokenKind::CmpEq,
            TokenKind::CmpGt => TokenKind::CmpGt,
            TokenKind::CmpLt => TokenKind::CmpLt,
            TokenKind::CmpGtEq => TokenKind::CmpGtEq,
            TokenKind::CmpLtEq => TokenKind::CmpLtEq,
            TokenKind::OpenParen => TokenKind::OpenParen,
            TokenKind::CloseParen => TokenKind::CloseParen,
            TokenKind::OpenCurly => TokenKind::OpenCurly,
            TokenKind::CloseCurly => TokenKind::CloseCurly,
            TokenKind::Colon => TokenKind::Colon,
            TokenKind::Comma => TokenKind::Comma,
            TokenKind::Eq => TokenKind::Eq,
            TokenKind::Ident(name) => TokenKind::Ident(name.clone()),
            TokenKind::Integer(v) => TokenKind::Integer(*v),
            TokenKind::NL => TokenKind::NL,
            TokenKind::EOF => TokenKind::EOF,
        }
    }

    /// Appends how this kind is displayed to `s`.
    pub fn push_text(&self, s: &mut String)
        ensures
            final(s)@ == old(s)@ + self@.text(),
    {
        match self {
            TokenKind::Mul => push_str(s, "*"),
            TokenKind::Div => push_str(s, "/"),
            TokenKind::Add => push_str(s, "+"),
            TokenKind::Sub => push_str(s, "-"),
            TokenKind::Pow => push_str(s, "^"),
            TokenKind::CmpEq => push_str(s, "=="),
            TokenKind::CmpGt => push_str(s, ">"),
            TokenKind::CmpLt => push_str(s, "<"),
            TokenKind::CmpGtEq => push_str(s, ">="),
            TokenKind::CmpLtEq => push_str(s, "<="),
            TokenKind::OpenParen => push_str(s, "("),
            TokenKind::CloseParen => push_str(s, ")"),
            TokenKind::OpenCurly => push_str(s, "{"),
            TokenKind::CloseCurly => push_str(s, "}"),
            TokenKind::Colon => push_str(s, ":"),
            TokenKind::Comma => push_str(s, ","),
            TokenKind::Eq => push_str(s, "="),
            TokenKind::Ident(name) => push_str(s, name.as_str()),
            TokenKind::Integer(v) => push_decimal(s, *v),
            TokenKind::NL => push_str(s, "\n"),
            TokenKind::EOF => push_str(s, "EOF"),
        }
    }

    /// How this kind is displayed.
    pub fn to_string(&self) -> (r: String)
        ensures
            r@ == self@.text(),
    {
        let mut s = String::new();
        self.push_text(&mut s);
        assert(s@ =~= self@.text());
        s
    }
}

/// A token and where it stands in the source.
#[derive(Clone, Debug, PartialEq, Eq)]
pub struct Token {
    pub kind: TokenKind,
    pub span: Span,
}

/// The mathematical value of a token.
pub struct Tok {
    pub kind: Kind,
    pub span: Span,
}

impl View for Token {
    type V = Tok;

    open spec fn view(&self) -> Tok {
        Tok { kind: self.kind@, span: self.span }
    }
}

impl Token {
    /// A copy of this token.
    pub fn duplicate(&self) -> (r: Token)
        ensures
            r@ == self@,
    {
        Token { kind: self.kind.duplicate(), span: self.span }
    }

    /// How this token is displayed: as its kind.
    pub fn to_string(&self) -> (r: String)
        ensures
            r@ == self@.kind.text(),
    {
        self.kind.to_string()
    }
}

} // verus!
