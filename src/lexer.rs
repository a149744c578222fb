use vstd::prelude::*;

use crate::error::{ErrCode, Error, ErrorView};
use crate::text::push_char;
use crate::token::{Kind, Tok, Token, TokenKind};
use crate::Span;

verus! {

/// Whether `c` may begin an identifier (Unicode `XID_Start`).
pub uninterp spec fn xid_start(c: char) -> bool;

/// Whether `c` may continue an identifier (Unicode `XID_Continue`).
pub uninterp spec fn xid_continue(c: char) -> bool;

/// Relies on `unicode_ident::is_xid_start`, the Unicode `XID_Start` property of `c`.
#[verifier::external_body]
fn is_ident_start(c: char) -> (r: bool)
    ensures
        r == xid_start(c),
{
    unicode_ident::is_xid_start(c)
}

/// Relies on `unicode_ident::is_xid_continue`, the Unicode `XID_Continue` property of `c`.
#[verifier::external_body]
fn is_ident_continue(c: char) -> (r: bool)
    ensures
        r == xid_continue(c),
{
    unicode_ident::is_xid_continue(c)
}

pub open spec fn is_ascii_letter(c: char) -> bool {
    ('a' <= c && c <= 'z') || ('A' <= c && c <= 'Z')
}

/// Whether `c` may begin an identifier: an ASCII letter, or a non-ASCII `XID_Start` character.
pub open spec fn ident_start(c: char) -> bool {
    if (c as u32) < 128 {
        is_ascii_letter(c)
    } else {
        xid_start(c)
    }
}

/// Whether `c` may continue an identifier: an ASCII letter, digit or `_`, or a
/// non-ASCII `XID_Continue` character.
pub open spec fn ident_continue(c: char) -> bool {
    if (c as u32) < 128 {
        is_ascii_letter(c) || ('0' <= c && c <= '9') || c == '_'
    } else {
        xid_continue(c)
    }
}

fn ident_start_exec(c: char) -> (r: bool)
    ensures
        r == ident_start(c),
{
    if (c as u32) < 128 {
        ('a' <= c && c <= 'z') || ('A' <= c && c <= 'Z')
    } else {
        is_ident_start(c)
    }
}

fn ident_continue_exec(c: char) -> (r: bool)
    ensures
        r == ident_continue(c),
{
    if (c as u32) < 128 {
        ('a' <= c && c <= 'z') || ('A' <= c && c <= 'Z') || ('0' <= c && c <= '9') || c == '_'
    } else {
        is_ident_continue(c)
    }
}

/// Number of bytes of the UTF-8 encoding of `c`.
pub open spec fn utf8_width(c: char) -> nat {
    let v = c as u32;
    if v <= 0x7F {
        1
    } else if v <= 0x7FF {
        2
    } else if v <= 0xFFFF {
        3
    } else {
        4
    }
}

/// Number of bytes of the UTF-8 encoding of `cs`.
pub open spec fn byte_len(cs: Seq<char>) -> nat
    decreases cs.len(),
{
    if cs.len() == 0 {
        0
    } else {
        byte_len(cs.drop_last()) + utf8_width(cs.last())
    }
}

/// Byte offset of the character at index `i` of `cs`.
pub open spec fn byte_pos(cs: Seq<char>, i: int) -> nat {
    byte_len(cs.subrange(0, i))
}

/// The byte span of the characters `[i, j)` of `cs`.
pub open spec fn char_span(cs: Seq<char>, i: int, j: int) -> Span {
    Span { start: byte_pos(cs, i) as usize, end: byte_pos(cs, j) as usize }
}

pub open spec fn is_digit(c: char) -> bool {
    '0' <= c && c <= '9'
}

/// Space, tab and form feed, which separate tokens.
pub open spec fn is_blank(c: char) -> bool {
    c == ' ' || c == '\t' || c == '\x0C'
}

/// Number of consecutive digits from index `i`.
pub open spec fn digits_len(cs: Seq<char>, i: int) -> nat
    decreases cs.len() - i,
{
    if 0 <= i < cs.len() && is_digit(cs[i]) {
        1 + digits_len(cs, i + 1)
    } else {
        0
    }
}

/// Number of consecutive characters from index `i` that may continue an identifier.
pub open spec fn ident_len(cs: Seq<char>, i: int) -> nat
    decreases cs.len() - i,
{
    if 0 <= i < cs.len() && ident_continue(cs[i]) {
        1 + ident_len(cs, i + 1)
    } else {
        0
    }
}

/// Number of characters from index `i` up to the end of the line.
pub open spec fn rest_of_line_len(cs: Seq<char>, i: int) -> nat
    decreases cs.len() - i,
{
    if 0 <= i < cs.len() && cs[i] != '\n' {
        1 + rest_of_line_len(cs, i + 1)
    } else {
        0
    }
}

/// The value of a run of decimal digits.
pub open spec fn digits_value(ds: Seq<char>) -> nat
    decreases ds.len(),
{
    if ds.len() == 0 {
        0
    } else {
        digits_value(ds.drop_last()) * 10 + ((ds.last() as u32) - 48) as nat
    }
}

/// The tokens that consist of one character, besides newline and `;`.
pub open spec fn single_char_kind(c: char) -> Option<Kind> {
    if c == '*' {
        Some(Kind::Mul)
    } else if c == '/' {
        Some(Kind::Div)
    } else if c == '+' {
        Some(Kind::Add)
    } else if c == '-' {
        Some(Kind::Sub)
    } else if c == '^' {
        Some(Kind::Pow)
    } else if c == '>' {
        Some(Kind::CmpGt)
    } else if c == '<' {
        Some(Kind::CmpLt)
    } else if c == '(' {
        Some(Kind::OpenParen)
    } else if c == ')' {
        Some(Kind::CloseParen)
    } else if c == '{' {
        Some(Kind::OpenCurly)
    } else if c == '}' {
        Some(Kind::CloseCurly)
    } else if c == ':' {
        Some(Kind::Colon)
    } else if c == ',' {
        Some(Kind::Comma)
    } else if c == '=' {
        Some(Kind::Eq)
    } else if c == '\n' || c == ';' {
        Some(Kind::NL)
    } else {
        None
    }
}

/// What the tokenizer makes of the characters from index `i` on, and where it goes on.
pub enum Lexeme {
    /// Blanks or a comment, skipped.
    Skip(int),
    /// A token, ending before the index given.
    Tok(Kind, int),
    /// Characters that form no token, ending before the index given.
    Bad(int),
}

/// Whether the characters at `i` and `i + 1` are `a` and `b`.
pub open spec fn pair_at(cs: Seq<char>, i: int, a: char, b: char) -> bool {
    i + 1 < cs.len() && cs[i] == a && cs[i + 1] == b
}

/// The longest lexeme that starts at index `i`.
pub open spec fn lexeme_at(cs: Seq<char>, i: int) -> Lexeme
    recommends
        0 <= i < cs.len(),
{
    let c = cs[i];
    if is_blank(c) {
        Lexeme::Skip(i + 1)
    } else if pair_at(cs, i, '/', '/') {
        Lexeme::Skip(i + 2 + rest_of_line_len(cs, i + 2))
    } else if pair_at(cs, i, '=', '=') {
        Lexeme::Tok(Kind::CmpEq, i + 2)
    } else if pair_at(cs, i, '>', '=') {
        Lexeme::Tok(Kind::CmpGtEq, i + 2)
    } else if pair_at(cs, i, '<', '=') {
        Lexeme::Tok(Kind::CmpLtEq, i + 2)
    } else if single_char_kind(c) is Some {
        Lexeme::Tok(single_char_kind(c)->0, i + 1)
    } else if is_digit(c) {
        let j = i + 1 + digits_len(cs, i + 1);
        let v = digits_value(cs.subrange(i, j));
        if v <= u32::MAX {
            Lexeme::Tok(Kind::Integer(v as u32), j)
        } else {
            Lexeme::Bad(j)
        }
    } else if ident_start(c) {
        let j = i + 1 + ident_len(cs, i + 1);
        Lexeme::Tok(Kind::Ident(cs.subrange(i, j)), j)
    } else {
        Lexeme::Bad(i + 1)
    }
}

/// Where the tokenizer goes on after the lexeme at `i`.
pub open spec fn lexeme_end(l: Lexeme) -> int {
    match l {
        Lexeme::Skip(j) => j,
        Lexeme::Tok(_, j) => j,
        Lexeme::Bad(j) => j,
    }
}

proof fn lemma_digits_len_bound(cs: Seq<char>, i: int)
    requires
        0 <= i <= cs.len(),
    ensures
        i + digits_len(cs, i) <= cs.len(),
    decreases cs.len() - i,
{
    if i < cs.len() {
        lemma_digits_len_bound(cs, i + 1);
    }
}

proof fn lemma_ident_len_bound(cs: Seq<char>, i: int)
    requires
        0 <= i <= cs.len(),
    ensures
        i + ident_len(cs, i) <= cs.len(),
    decreases cs.len() - i,
{
    if i < cs.len() {
        lemma_ident_len_bound(cs, i + 1);
    }
}

proof fn lemma_rest_of_line_bound(cs: Seq<char>, i: int)
    requires
        0 <= i <= cs.len(),
    ensures
        i + rest_of_line_len(cs, i) <= cs.len(),
    decreases cs.len() - i,
{
    if i < cs.len() {
        lemma_rest_of_line_bound(cs, i + 1);
    }
}

/// Every lexeme covers at least one character and stays inside the text.
pub proof fn lemma_lexeme_progress(cs: Seq<char>, i: int)
    requires
        0 <= i < cs.len(),
    ensures
        i < lexeme_end(lexeme_at(cs, i)) <= cs.len(),
{
    lemma_digits_len_bound(cs, i + 1);
    lemma_ident_len_bound(cs, i + 1);
    if i + 2 <= cs.len() {
        lemma_rest_of_line_bound(cs, i + 2);
    }
}

#[via_fn]
proof fn scan_tokens_decreases(cs: Seq<char>, i: int) {
    if 0 <= i < cs.len() {
        lemma_lexeme_progress(cs, i);
    }
}

#[via_fn]
proof fn scan_errors_decreases(cs: Seq<char>, i: int) {
    if 0 <= i < cs.len() {
        lemma_lexeme_progress(cs, i);
    }
}

/// The tokens found from index `i` to the end, without the end marker.
pub open spec fn scan_tokens(cs: Seq<char>, i: int) -> Seq<Tok>
    decreases cs.len() - i via scan_tokens_decreases
{
    if i < 0 || i >= cs.len() {
        seq![]
    } else {
        match lexeme_at(cs, i) {
            Lexeme::Skip(j) => scan_tokens(cs, j),
            Lexeme::Tok(k, j) => seq![Tok { kind: k, span: char_span(cs, i, j) }] + scan_tokens(cs, j),
            Lexeme::Bad(j) => scan_tokens(cs, j),
        }
    }
}

/// The spans of the characters from index `i` on that form no token.
pub open spec fn scan_errors(cs: Seq<char>, i: int) -> Seq<Span>
    decreases cs.len() - i via scan_errors_decreases
{
    if i < 0 || i >= cs.len() {
        seq![]
    } else {
        match lexeme_at(cs, i) {
            Lexeme::Skip(j) => scan_errors(cs, j),
            Lexeme::Tok(k, j) => scan_errors(cs, j),
            Lexeme::Bad(j) => seq![char_span(cs, i, j)] + scan_errors(cs, j),
        }
    }
}

/// The tokens of `cs`, closed by an end marker that repeats the last token's span
/// (an empty span at 0 when there is no token).
pub open spec fn lex_tokens(cs: Seq<char>) -> Seq<Tok> {
    let ts = scan_tokens(cs, 0);
    let eof_span = if ts.len() == 0 { Span { start: 0, end: 0 } } else { ts.last().span };
    ts.push(Tok { kind: Kind::EOF, span: eof_span })
}

/// The lexical error reported for the characters at `span`.
pub open spec fn lex_error(span: Span) -> ErrorView {
    ErrorView { pos: span, msg: "unknown character"@, code: ErrCode::Lexer }
}

/// The lexical errors of `cs`, in order.
pub open spec fn lex_errors(cs: Seq<char>) -> Seq<ErrorView> {
    scan_errors(cs, 0).map_values(|s: Span| lex_error(s))
}

proof fn lemma_byte_pos_step(cs: Seq<char>, i: int)
    requires
        0 <= i < cs.len(),
    ensures
        byte_pos(cs, i + 1) == byte_pos(cs, i) + utf8_width(cs[i]),
{
    assert(cs.subrange(0, i + 1).drop_last() =~= cs.subrange(0, i));
}

proof fn lemma_byte_pos_mono(cs: Seq<char>, i: int, j: int)
    requires
        0 <= i <= j <= cs.len(),
    ensures
        byte_pos(cs, i) <= byte_pos(cs, j),
    decreases j - i,
{
    if i < j {
        lemma_byte_pos_step(cs, j - 1);
        lemma_byte_pos_mono(cs, i, j - 1);
    }
}

proof fn lemma_byte_pos_bound(cs: Seq<char>, i: int)
    requires
        0 <= i <= cs.len(),
    ensures
        byte_pos(cs, i) <= byte_len(cs),
{
    lemma_byte_pos_mono(cs, i, cs.len() as int);
    assert(cs.subrange(0, cs.len() as int) =~= cs);
}

/// The characters of `s`, in order.
fn chars_of(s: &str) -> (r: Vec<char>)
    ensures
        r@ == s@,
{
    let ghost whole = s@;
    let mut v: Vec<char> = Vec::new();
    let mut i: usize = 0;
    let n = s.unicode_len();
    while i < n
        invariant
            n == whole.len(),
            whole == s@,
            i <= n,
            v@ == whole.subrange(0, i as int),
        decreases n - i,
    {
        let c = s.get_char(i);
        v.push(c);
        i = i + 1;
        assert(v@ =~= whole.subrange(0, i as int));
    }
    assert(v@ =~= whole);
    v
}

/// Advances a byte offset over the characters `[i, j)`.
fn skip_bytes(cs: &Vec<char>, i: usize, j: usize, b: usize) -> (r: usize)
    requires
        i <= j <= cs.len(),
        b == byte_pos(cs@, i as int),
        byte_len(cs@) <= usize::MAX,
    ensures
        r == byte_pos(cs@, j as int),
{
    let mut k = i;
    let mut r = b;
    while k < j
        invariant
            i <= k <= j <= cs.len(),
            r == byte_pos(cs@, k as int),
            byte_len(cs@) <= usize::MAX,
        decreases j - k,
    {
        proof {
            lemma_byte_pos_step(cs@, k as int);
            lemma_byte_pos_bound(cs@, k as int + 1);
        }
        let v = cs[k] as u32;
        let w: usize = if v <= 0x7F {
            1
        } else if v <= 0x7FF {
            2
        } else if v <= 0xFFFF {
            3
        } else {
            4
        };
        r = r + w;
        k = k + 1;
    }
    r
}

/// The exec form of a lexeme.
enum Scanned {
    Skip(usize),
    Tok(TokenKind, usize),
    Bad(usize),
}

impl View for Scanned {
    type V = Lexeme;

    closed spec fn view(&self) -> Lexeme {
        match self {
            Scanned::Skip(j) => Lexeme::Skip(*j as int),
            Scanned::Tok(k, j) => Lexeme::Tok(k@, *j as int),
            Scanned::Bad(j) => Lexeme::Bad(*j as int),
        }
    }
}

fn single_char_token(c: char) -> (r: Option<TokenKind>)
    ensures
        r is Some <==> single_char_kind(c) is Some,
        r is Some ==> r->0@ == single_char_kind(c)->0,
{
    if c == '*' {
        Some(TokenKind::Mul)
    } else if c == '/' {
        Some(TokenKind::Div)
    } else if c == '+' {
        Some(TokenKind::Add)
    } else if c == '-' {
        Some(TokenKind::Sub)
    } else if c == '^' {
        Some(TokenKind::Pow)
    } else if c == '>' {
        Some(TokenKind::CmpGt)
    } else if c == '<' {
        Some(TokenKind::CmpLt)
    } else if c == '(' {
        Some(TokenKind::OpenParen)
    } else if c == ')' {
        Some(TokenKind::CloseParen)
    } else if c == '{' {
        Some(TokenKind::OpenCurly)
    } else if c == '}' {
        Some(TokenKind::CloseCurly)
    } else if c == ':' {
        Some(TokenKind::Colon)
    } else if c == ',' {
        Some(TokenKind::Comma)
    } else if c == '=' {
        Some(TokenKind::Eq)
    } else if c == '\n' || c == ';' {
        Some(TokenKind::NL)
    } else {
        None
    }
}

fn pair_at_exec(cs: &Vec<char>, i: usize, a: char, b: char) -> (r: bool)
    requires
        i < cs.len(),
    ensures
        r == pair_at(cs@, i as int, a, b),
{
    i + 1 < cs.len() && cs[i] == a && cs[i + 1] == b
}

/// Scans a run of digits starting at `i`, with its value unless it exceeds `u32::MAX`.
fn scan_digits(cs: &Vec<char>, i: usize) -> (r: (usize, Option<u32>))
    requires
        i < cs.len(),
        is_digit(cs@[i as int]),
    ensures
        r.0 == i + 1 + digits_len(cs@, i + 1),
        r.1 is Some <==> digits_value(cs@.subrange(i as int, r.0 as int)) <= u32::MAX,
        r.1 is Some ==> r.1->0 == digits_value(cs@.subrange(i as int, r.0 as int)),
{
    let mut j = i;
    let mut v: u32 = 0;
    let mut over = false;
    assert(cs@.subrange(i as int, i as int) =~= Seq::<char>::empty());
    while j < cs.len() && '0' <= cs[j] && cs[j] <= '9'
        invariant
            i <= j <= cs.len(),
            j == i || is_digit(cs@[i as int]),
            digits_len(cs@, i as int) == (j - i) + digits_len(cs@, j as int),
            !over ==> v == digits_value(cs@.subrange(i as int, j as int)),
            over ==> digits_value(cs@.subrange(i as int, j as int)) > u32::MAX,
        decreases cs.len() - j,
    {
        let d = (cs[j] as u32) - 48;
        assert(cs@.subrange(i as int, j + 1).drop_last() =~= cs@.subrange(i as int, j as int));
        if over || v > 429496729 || (v == 429496729 && d > 5) {
            over = true;
        } else {
            v = v * 10 + d;
        }
        j = j + 1;
    }
    if over {
        (j, None)
    } else {
        (j, Some(v))
    }
}

/// Scans an identifier starting at `i`.
fn scan_ident(cs: &Vec<char>, i: usize) -> (r: (usize, String))
    requires
        i < cs.len(),
    ensures
        r.0 == i + 1 + ident_len(cs@, i + 1),
        r.1@ == cs@.subrange(i as int, r.0 as int),
{
    let mut name = String::new();
    push_char(&mut name, cs[i]);
    let mut j = i + 1;
    assert(name@ =~= cs@.subrange(i as int, j as int));
    while j < cs.len() && ident_continue_exec(cs[j])
        invariant
            i < j <= cs.len(),
            ident_len(cs@, i + 1) == (j - i - 1) + ident_len(cs@, j as int),
            name@ == cs@.subrange(i as int, j as int),
        decreases cs.len() - j,
    {
        push_char(&mut name, cs[j]);
        j = j + 1;
        assert(name@ =~= cs@.subrange(i as int, j as int));
    }
    (j, name)
}

/// Scans the rest of a line from `i`.
fn scan_line(cs: &Vec<char>, i: usize) -> (r: usize)
    requires
        i <= cs.len(),
    ensures
        r == i + rest_of_line_len(cs@, i as int),
{
    let mut j = i;
    while j < cs.len() && cs[j] != '\n'
        invariant
            i <= j <= cs.len(),
            rest_of_line_len(cs@, i as int) == (j - i) + rest_of_line_len(cs@, j as int),
        decreases cs.len() - j,
    {
        j = j + 1;
    }
    j
}

/// The lexeme at index `i`.
fn scan_at(cs: &Vec<char>, i: usize) -> (r: Scanned)
    requires
        i < cs.len(),
    ensures
        r@ == lexeme_at(cs@, i as int),
{
    let c = cs[i];
    if c == ' ' || c == '\t' || c == '\x0C' {
        Scanned::Skip(i + 1)
    } else if pair_at_exec(cs, i, '/', '/') {
        Scanned::Skip(scan_line(cs, i + 2))
    } else if pair_at_exec(cs, i, '=', '=') {
        Scanned::Tok(TokenKind::CmpEq, i + 2)
    } else if pair_at_exec(cs, i, '>', '=') {
        Scanned::Tok(TokenKind::CmpGtEq, i + 2)
    } else if pair_at_exec(cs, i, '<', '=') {
        Scanned::Tok(TokenKind::CmpLtEq, i + 2)
    } else {
        match single_char_token(c) {
            Some(k) => Scanned::Tok(k, i + 1),
            None => {
                if '0' <= c && c <= '9' {
                    let (j, v) = scan_digits(cs, i);
                    match v {
                        Some(v) => Scanned::Tok(TokenKind::Integer(v), j),
                        None => Scanned::Bad(j),
                    }
                } else if ident_start_exec(c) {
                    let (j, name) = scan_ident(cs, i);
                    Scanned::Tok(TokenKind::Ident(name), j)
                } else {
                    Scanned::Bad(i + 1)
                }
            },
        }
    }
}

/// The tokens and lexical errors of a source text.
#[derive(Clone, Debug, PartialEq, Eq)]
pub struct LexerResult {
    tokens: Vec<Token>,
    errors: Vec<Error>,
}

impl LexerResult {
    /// The tokens found, end marker included.
    pub closed spec fn spec_tokens(&self) -> Seq<Tok> {
        self.tokens@.map_values(|t: Token| t@)
    }

    /// The lexical errors found, in order.
    pub closed spec fn spec_errors(&self) -> Seq<ErrorView> {
        self.errors@.map_values(|e: Error| e@)
    }

    pub fn has_err(&self) -> (r: bool)
        ensures
            r == (self.spec_errors().len() > 0),
    {
        self.errors.len() > 0
    }

    pub fn tokens(&self) -> (r: &Vec<Token>)
        ensures
            r@.map_values(|t: Token| t@) == self.spec_tokens(),
    {
        &self.tokens
    }

    pub fn into_errors(self) -> (r: Vec<Error>)
        ensures
            r@.map_values(|e: Error| e@) == self.spec_errors(),
    {
        self.errors
    }

    pub fn into_tokens(self) -> (r: Vec<Token>)
        ensures
            r@.map_values(|t: Token| t@) == self.spec_tokens(),
    {
        self.tokens
    }
}

/// Splits `code` into tokens, closed by an end marker, and reports every stretch of
/// characters that forms no token as a lexical error, going on after it.
pub fn lex(code: &str) -> (r: LexerResult)
    requires
        byte_len(code@) <= usize::MAX,
    ensures
        r.spec_tokens() == lex_tokens(code@),
        r.spec_errors() == lex_errors(code@),
        r.spec_tokens().len() > 0,
        r.spec_tokens().last().kind == Kind::EOF,
{
    let cs = chars_of(code);
    let ghost s = cs@;
    let n = cs.len();
    let mut tokens: Vec<Token> = Vec::new();
    let mut errors: Vec<Error> = Vec::new();
    let mut i: usize = 0;
    let mut b: usize = 0;
    assert(s.subrange(0, 0) =~= Seq::<char>::empty());
    while i < n
        invariant
            s == cs@,
            n == s.len(),
            i <= n,
            byte_len(s) <= usize::MAX,
            b == byte_pos(s, i as int),
            tokens@.map_values(|t: Token| t@) + scan_tokens(s, i as int) == scan_tokens(s, 0),
            errors@.map_values(|e: Error| e@) + scan_errors(s, i as int).map_values(
                |sp: Span| lex_error(sp),
            ) == scan_errors(s, 0).map_values(|sp: Span| lex_error(sp)),
        decreases n - i,
    {
        let step = scan_at(&cs, i);
        proof {
            lemma_lexeme_progress(s, i as int);
        }
        let ghost ts0 = tokens@.map_values(|t: Token| t@);
        let ghost es0 = errors@.map_values(|e: Error| e@);
        match step {
            Scanned::Skip(j) => {
                proof {
                    lemma_byte_pos_bound(s, j as int);
                }
                b = skip_bytes(&cs, i, j, b);
                i = j;
            },
            Scanned::Tok(k, j) => {
                let e = skip_bytes(&cs, i, j, b);
                let tok = Token { kind: k, span: Span { start: b, end: e } };
                tokens.push(tok);
                assert(tokens@.map_values(|t: Token| t@) =~= ts0.push(tok@));
                assert(ts0.push(tok@) + scan_tokens(s, j as int) =~= ts0 + (seq![tok@]
                    + scan_tokens(s, j as int)));
                b = e;
                i = j;
            },
            Scanned::Bad(j) => {
                let e = skip_bytes(&cs, i, j, b);
                let err = ErrCode::Lexer.to_err(
                    &Span { start: b, end: e },
                    "unknown character".to_owned(),
                );
                errors.push(err);
                let ghost rest = scan_errors(s, j as int).map_values(|sp: Span| lex_error(sp));
                assert(errors@.map_values(|e: Error| e@) =~= es0.push(err@));
                assert(scan_errors(s, i as int).map_values(|sp: Span| lex_error(sp)) =~= seq![
                    err@,
                ] + rest);
                assert(es0.push(err@) + rest =~= es0 + (seq![err@] + rest));
                b = e;
                i = j;
            },
        }
    }
    assert(tokens@.map_values(|t: Token| t@) =~= scan_tokens(s, 0));
    assert(errors@.map_values(|e: Error| e@) =~= scan_errors(s, 0).map_values(
        |sp: Span| lex_error(sp),
    ));
    let eof_span = if tokens.len() == 0 {
        Span { start: 0, end: 0 }
    } else {
        tokens[tokens.len() - 1].span
    };
    let ghost ts0 = tokens@.map_values(|t: Token| t@);
    let eof = Token { kind: TokenKind::EOF, span: eof_span };
    tokens.push(eof);
    assert(tokens@.map_values(|t: Token| t@) =~= ts0.push(eof@));
    LexerResult { tokens, errors }
}

} // verus!
