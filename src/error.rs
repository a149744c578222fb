use vstd::prelude::*;

use crate::Span;

verus! {

/// Which part of the front end reported an error.
#[derive(Clone, Copy, Debug, PartialEq, Eq, Hash, Structural)]
pub enum ErrCode {
    Lexer,
    Syntax,
    Unspecified,
}

impl Default for ErrCode {
    fn default() -> (r: ErrCode)
        ensures
            r == ErrCode::Unspecified,
    {
        ErrCode::Unspecified
    }
}

/// A lexical or syntax error: where it is, what it says, and who reported it.
#[derive(Clone, Debug, PartialEq, Eq, Hash)]
pub struct Error {
    pub pos: Span,
    pub msg: String,
    pub code: ErrCode,
}

/// What a caller can observe of an error: its span, its message and its code.
pub struct ErrorView {
    pub pos: Span,
    pub msg: Seq<char>,
    pub code: ErrCode,
}

impl View for Error {
    type V = ErrorView;

    open spec fn view(&self) -> ErrorView {
        ErrorView { pos: self.pos, msg: self.msg@, code: self.code }
    }
}

impl ErrCode {
    /// The name under which diagnostics show this code.
    pub open spec fn spec_text(self) -> Seq<char> {
        match self {
            ErrCode::Lexer => "Lexer"@,
            ErrCode::Syntax => "Syntax"@,
            ErrCode::Unspecified => "..."@,
        }
    }

    pub fn to_string(&self) -> (r: String)
        ensures
            r@ == self.spec_text(),
    {
        let t = match self {
            ErrCode::Lexer => "Lexer",
            ErrCode::Syntax => "Syntax",
            ErrCode::Unspecified => "...",
        };
        t.to_owned()
    }

    /// An error of this code at `pos` saying `msg`.
    pub fn to_err(self, pos: &Span, msg: String) -> (r: Error)
        ensures
            r.pos == *pos,
            r.msg@ == msg@,
            r.code == self,
    {
        Error { pos: *pos, msg, code: self }
    }
}

impl Error {
    /// An error without a code.
    pub fn new(pos: Span, msg: String) -> (r: Error)
        ensures
            r.pos == pos,
            r.msg@ == msg@,
            r.code == ErrCode::Unspecified,
    {
        Error { pos, msg, code: ErrCode::Unspecified }
    }
}

} // verus!
