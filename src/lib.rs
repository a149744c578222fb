//! The front end of a symbolic-expression evaluator: a tokenizer, an
//! error-recovering precedence-climbing parser, the syntax tree it builds, the
//! table of builtin functions, and the lowering of a tree to the operations of
//! an algebra engine.

use vstd::prelude::*;

pub mod ast;
pub mod athena;
pub mod context;
pub mod error;
pub mod eval;
pub mod lexer;
pub mod parser;
pub mod round_trip;
pub mod text;
pub mod token;

verus! {

/// A half-open byte range `[start, end)` into the source text.
#[derive(Clone, Copy, Debug, PartialEq, Eq, Hash, Structural)]
pub struct Span {
    pub start: usize,
    pub end: usize,
}

/// The smallest span covering both `s1` and `s2`.
pub fn merge_span(s1: &Span, s2: &Span) -> (r: Span)
    ensures
        r.start == if s1.start <= s2.start { s1.start } else { s2.start },
        r.end == if s1.end >= s2.end { s1.end } else { s2.end },
{
    let start = if s1.start <= s2.start { s1.start } else { s2.start };
    let end = if s1.end >= s2.end { s1.end } else { s2.end };
    Span { start, end }
}

} // verus!
