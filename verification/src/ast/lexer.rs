use crate::span::{SourceSpan, span_readable, span_text, substr};
use vstd::prelude::*;
use vstd::string::StringSliceAdditionalSpecFns;
use vstd::utf8::*;

verus! {

broadcast use vstd::utf8::encode_utf8_valid_utf8;

/// Punctuation.
#[derive(Copy, Clone, Debug, PartialEq, Eq, Structural)]
pub enum Punct {
    /// `(`
    LParen,
    /// `)`
    RParen,
    /// `[`
    LBracket,
    /// `]`
    RBracket,
    /// `{`
    LBrace,
    /// `}`
    RBrace,
    /// `->`
    Arrow,
    /// `,`
    Comma,
    /// `;`
    Semicolon,
    /// `:`
    Colon,
    /// `?`
    QuestionMark,
    /// `!`
    ExclamationMark,
    /// `#`
    Hash,
    /// `.`
    Dot,
    /// `|`
    Pipe,
    /// `*`
    Star,
    /// `-`
    Dash,
    /// `=`
    Eq,
}

/// Literal kinds.
#[derive(Copy, Clone, Debug, PartialEq, Eq, Structural)]
pub enum Literal {
    /// Integer literal.
    Integer,
    /// Floating-point number.
    Float,
    /// String literal, including the quotes.
    String,
    /// Char literal, including the quotes.
    Char,
    /// `true` or `false`
    Bool,
}

/// Token kinds.
#[derive(Copy, Clone, Debug, PartialEq, Eq, Structural)]
pub enum TokenKind {
    /// Identifier: an ASCII letter followed by ASCII letters, digits and underscores.
    Ident,
    /// Literal value, e.g. `123`, `3.14e-1`, `"hello"`, `'c'`, `true`, `false`.
    Literal(Literal),
    /// Punctuation.
    Punct(Punct),
    /// Comments: `// comment`, `/* comment */`, `/// doc comment`, `/** doc comment */`.
    Comment,
    /// Invalid token: an unknown character (the token then spans the rest of the
    /// document) or an unterminated string or char literal.
    Error,
}

/// A token: its kind and its span.
#[derive(Copy, Clone, Debug, PartialEq, Eq, Structural)]
pub struct Token {
    pub kind: TokenKind,
    pub span: SourceSpan,
}

// ---------------------------------------------------------------------------
// Byte classes

pub open spec fn is_ws(c: u8) -> bool {
    c == 32 || c == 9 || c == 10 || c == 12 || c == 13
}

pub open spec fn is_digit(c: u8) -> bool {
    48 <= c <= 57
}

pub open spec fn is_alpha(c: u8) -> bool {
    (65 <= c <= 90) || (97 <= c <= 122)
}

pub open spec fn is_alnum(c: u8) -> bool {
    is_digit(c) || is_alpha(c)
}

pub open spec fn is_ident_byte(c: u8) -> bool {
    is_alnum(c) || c == 95
}

fn ws_byte(c: u8) -> (r: bool)
    ensures
        r == is_ws(c),
{
    c == 32 || c == 9 || c == 10 || c == 12 || c == 13
}

pub fn digit_byte(c: u8) -> (r: bool)
    ensures
        r == is_digit(c),
{
    48 <= c && c <= 57
}

pub fn alpha_byte(c: u8) -> (r: bool)
    ensures
        r == is_alpha(c),
{
    (65 <= c && c <= 90) || (97 <= c && c <= 122)
}

pub fn alnum_byte(c: u8) -> (r: bool)
    ensures
        r == is_alnum(c),
{
    digit_byte(c) || alpha_byte(c)
}

// ---------------------------------------------------------------------------
// The lexical grammar, stated over the bytes of the input

/// The byte at `i`, or nothing past the end.
pub open spec fn byte_at(b: Seq<u8>, i: int) -> Option<u8> {
    if 0 <= i < b.len() {
        Some(b[i])
    } else {
        None
    }
}

/// `s` occurs in `b` at offset `p`.
pub open spec fn occurs_at(b: Seq<u8>, p: int, s: Seq<u8>) -> bool {
    0 <= p && p + s.len() <= b.len() && b.subrange(p, p + s.len()) == s
}

/// First offset at or after `p` that is not ASCII whitespace.
pub open spec fn skip_ws(b: Seq<u8>, p: int) -> int
    decreases b.len() - p,
{
    if 0 <= p < b.len() && is_ws(b[p]) {
        skip_ws(b, p + 1)
    } else {
        p
    }
}

/// First offset at or after `p` that holds `\n` or `\r`, or the end.
pub open spec fn line_end(b: Seq<u8>, p: int) -> int
    decreases b.len() - p,
{
    if 0 <= p < b.len() && b[p] != 10 && b[p] != 13 {
        line_end(b, p + 1)
    } else {
        p
    }
}

/// The offset just past the first occurrence of `s` at or after `q`; none when
/// there is no such occurrence.
pub open spec fn find_end(b: Seq<u8>, q: int, s: Seq<u8>) -> Option<int>
    decreases b.len() + 1 - q,
{
    if q < 0 || q > b.len() {
        None
    } else if occurs_at(b, q, s) {
        Some(q + s.len())
    } else {
        find_end(b, q + 1, s)
    }
}

/// Scans the body of a quoted literal from `j`: returns the offset just past
/// the closing `quote` and `true`, or the offset where the input ran out and
/// `false`. A backslash makes the scan skip the byte after it.
pub open spec fn quoted_end(b: Seq<u8>, j: int, quote: u8) -> (int, bool)
    decreases b.len() + 1 - j,
{
    if j < 0 || j >= b.len() {
        (j, false)
    } else if b[j] == quote {
        (j + 1, true)
    } else if b[j] == 92 {
        quoted_end(b, j + 2, quote)
    } else {
        quoted_end(b, j + 1, quote)
    }
}

/// The byte at `j` is an exponent mark, `e` or `E`, followed by a sign.
pub open spec fn signed_exponent(b: Seq<u8>, j: int) -> bool {
    0 <= j && j + 1 < b.len() && (b[j] == 101 || b[j] == 69) && (b[j + 1] == 45 || b[j + 1] == 43)
}

/// Scans digits, `.`, `e` and `E` (with the sign that may follow an exponent
/// mark) from `j`: returns the end offset and whether any of `.`, `e`, `E`
/// occurred.
pub open spec fn number_end(b: Seq<u8>, j: int) -> (int, bool)
    decreases b.len() - j,
{
    if 0 <= j < b.len() && is_digit(b[j]) {
        number_end(b, j + 1)
    } else if signed_exponent(b, j) {
        (number_end(b, j + 2).0, true)
    } else if 0 <= j < b.len() && (b[j] == 46 || b[j] == 101 || b[j] == 69) {
        (number_end(b, j + 1).0, true)
    } else {
        (j, false)
    }
}

/// First offset at or after `j` that does not hold an identifier byte.
pub open spec fn ident_end(b: Seq<u8>, j: int) -> int
    decreases b.len() - j,
{
    if 0 <= j < b.len() && is_ident_byte(b[j]) {
        ident_end(b, j + 1)
    } else {
        j
    }
}

/// The outcome of scanning one token at an offset that holds a byte.
pub enum Scan {
    /// A token of this kind that ends at this offset.
    Tok(TokenKind, int),
    /// The scan panics: a block comment without `*/`.
    Panic,
}

pub open spec fn kw_true() -> Seq<u8> {
    seq![116u8, 114, 117, 101]
}

pub open spec fn kw_false() -> Seq<u8> {
    seq![102u8, 97, 108, 115, 101]
}

pub open spec fn block_close() -> Seq<u8> {
    seq![42u8, 47]
}

/// `kw` occurs at `p` and is not followed by an ASCII letter or digit.
pub open spec fn word_at(b: Seq<u8>, p: int, kw: Seq<u8>) -> bool {
    occurs_at(b, p, kw) && (match byte_at(b, p + kw.len()) {
        Some(c) => !is_alnum(c),
        None => true,
    })
}

pub open spec fn punct_of(c: u8) -> Option<Punct> {
    if c == 40 { Some(Punct::LParen) }
    else if c == 41 { Some(Punct::RParen) }
    else if c == 91 { Some(Punct::LBracket) }
    else if c == 93 { Some(Punct::RBracket) }
    else if c == 123 { Some(Punct::LBrace) }
    else if c == 125 { Some(Punct::RBrace) }
    else if c == 44 { Some(Punct::Comma) }
    else if c == 59 { Some(Punct::Semicolon) }
    else if c == 58 { Some(Punct::Colon) }
    else if c == 61 { Some(Punct::Eq) }
    else if c == 63 { Some(Punct::QuestionMark) }
    else if c == 33 { Some(Punct::ExclamationMark) }
    else if c == 124 { Some(Punct::Pipe) }
    else if c == 46 { Some(Punct::Dot) }
    else if c == 42 { Some(Punct::Star) }
    else if c == 35 { Some(Punct::Hash) }
    else { None }
}

/// The token that starts at offset `p` (which holds a byte that is not
/// whitespace), tried in this order: the words `true` and `false`, comments,
/// string and char literals, numbers (with an optional leading `-`; a `+`
/// before a digit gives an empty integer token), identifiers, punctuation
/// (`->` before `-`), and otherwise an error token up to the end.
pub open spec fn scan_token(b: Seq<u8>, p: int) -> Scan {
    let c = b[p];
    let next = byte_at(b, p + 1);
    if c == 116 && word_at(b, p, kw_true()) {
        Scan::Tok(TokenKind::Literal(Literal::Bool), p + 4)
    } else if c == 102 && word_at(b, p, kw_false()) {
        Scan::Tok(TokenKind::Literal(Literal::Bool), p + 5)
    } else if c == 47 && next == Some(47u8) {
        Scan::Tok(TokenKind::Comment, line_end(b, p))
    } else if c == 47 && next == Some(42u8) {
        match find_end(b, p, block_close()) {
            Some(e) => Scan::Tok(TokenKind::Comment, e),
            None => Scan::Panic,
        }
    } else if c == 34 {
        let (e, closed) = quoted_end(b, p + 1, 34);
        Scan::Tok(if closed { TokenKind::Literal(Literal::String) } else { TokenKind::Error }, e)
    } else if c == 39 {
        let (e, closed) = quoted_end(b, p + 1, 39);
        Scan::Tok(if closed { TokenKind::Literal(Literal::Char) } else { TokenKind::Error }, e)
    } else if is_digit(c) || (c == 43 && next.is_some() && is_digit(next.unwrap())) {
        let (e, float) = number_end(b, p);
        Scan::Tok(TokenKind::Literal(if float { Literal::Float } else { Literal::Integer }), e)
    } else if c == 45 && next.is_some() && is_digit(next.unwrap()) {
        let (e, float) = number_end(b, p + 1);
        Scan::Tok(TokenKind::Literal(if float { Literal::Float } else { Literal::Integer }), e)
    } else if is_alpha(c) {
        Scan::Tok(TokenKind::Ident, ident_end(b, p))
    } else if c == 45 && next == Some(62u8) {
        Scan::Tok(TokenKind::Punct(Punct::Arrow), p + 2)
    } else if c == 45 {
        Scan::Tok(TokenKind::Punct(Punct::Dash), p + 1)
    } else if punct_of(c).is_some() {
        Scan::Tok(TokenKind::Punct(punct_of(c).unwrap()), p + 1)
    } else {
        Scan::Tok(TokenKind::Error, b.len() as int)
    }
}

/// What one call of `next_token` does at a lexer position.
pub enum LexStep {
    /// The input is exhausted (after whitespace); the position moves to the end.
    End(int),
    /// A token is produced; the position moves to its end.
    Emit(Token, int),
    /// The call panics.
    Panic,
}

/// One lexing step from position `pos` of the input `b` of file `fi`: skip
/// ASCII whitespace, then scan one token.
pub open spec fn lex_step(b: Seq<u8>, fi: usize, pos: int) -> LexStep {
    if pos < 0 || pos > b.len() {
        LexStep::Panic
    } else {
        let p = skip_ws(b, pos);
        if p >= b.len() {
            LexStep::End(p)
        } else {
            match scan_token(b, p) {
                Scan::Tok(kind, e) => LexStep::Emit(
                    Token { kind, span: SourceSpan { index: fi, start: p as u32, end: e as u32 } },
                    e,
                ),
                Scan::Panic => LexStep::Panic,
            }
        }
    }
}

// ---------------------------------------------------------------------------
// Bounds

pub proof fn lemma_skip_ws(b: Seq<u8>, p: int)
    requires
        0 <= p <= b.len(),
    ensures
        p <= skip_ws(b, p) <= b.len(),
        skip_ws(b, p) < b.len() ==> !is_ws(b[skip_ws(b, p)]),
    decreases b.len() - p,
{
    if 0 <= p < b.len() && is_ws(b[p]) {
        lemma_skip_ws(b, p + 1);
    }
}

proof fn lemma_line_end(b: Seq<u8>, p: int)
    requires
        0 <= p <= b.len(),
    ensures
        p <= line_end(b, p) <= b.len(),
    decreases b.len() - p,
{
    if 0 <= p < b.len() && b[p] != 10 && b[p] != 13 {
        lemma_line_end(b, p + 1);
    }
}

proof fn lemma_find_end(b: Seq<u8>, q: int, s: Seq<u8>)
    requires
        0 <= q,
    ensures
        find_end(b, q, s) matches Some(e) ==> q + s.len() <= e <= b.len(),
    decreases b.len() + 1 - q,
{
    if q < 0 || q > b.len() {
    } else if occurs_at(b, q, s) {
    } else {
        lemma_find_end(b, q + 1, s);
    }
}

proof fn lemma_quoted_end(b: Seq<u8>, j: int, quote: u8)
    requires
        0 <= j <= b.len() + 1,
    ensures
        j <= quoted_end(b, j, quote).0 <= b.len() + 1,
        quoted_end(b, j, quote).1 ==> quoted_end(b, j, quote).0 <= b.len(),
    decreases b.len() + 1 - j,
{
    if j < 0 || j >= b.len() {
    } else if b[j] == quote {
    } else if b[j] == 92 {
        lemma_quoted_end(b, j + 2, quote);
    } else {
        lemma_quoted_end(b, j + 1, quote);
    }
}

proof fn lemma_number_end(b: Seq<u8>, j: int)
    requires
        0 <= j <= b.len(),
    ensures
        j <= number_end(b, j).0 <= b.len(),
    decreases b.len() - j,
{
    if 0 <= j < b.len() && is_digit(b[j]) {
        lemma_number_end(b, j + 1);
    } else if signed_exponent(b, j) {
        lemma_number_end(b, j + 2);
    } else if 0 <= j < b.len() && (b[j] == 46 || b[j] == 101 || b[j] == 69) {
        lemma_number_end(b, j + 1);
    }
}

proof fn lemma_ident_end(b: Seq<u8>, j: int)
    requires
        0 <= j <= b.len(),
    ensures
        j <= ident_end(b, j) <= b.len(),
    decreases b.len() - j,
{
    if 0 <= j < b.len() && is_ident_byte(b[j]) {
        lemma_ident_end(b, j + 1);
    }
}

/// A token scanned at `p` ends at or after `p` and at most one past the end of
/// the input; it is empty only for a `+` before a digit.
pub proof fn lemma_scan_token(b: Seq<u8>, p: int)
    requires
        0 <= p < b.len(),
    ensures
        scan_token(b, p) matches Scan::Tok(k, e) ==> {
            &&& p <= e <= b.len() + 1
            &&& (e == p <==> (b[p] == 43 && k == TokenKind::Literal(Literal::Integer)))
            &&& (e == b.len() + 1 ==> k == TokenKind::Error)
        },
{
    lemma_line_end(b, p);
    lemma_line_end(b, p + 1);
    lemma_find_end(b, p, block_close());
    lemma_quoted_end(b, p + 1, 34);
    lemma_quoted_end(b, p + 1, 39);
    lemma_number_end(b, p);
    lemma_number_end(b, p + 1);
    if p + 2 <= b.len() {
        lemma_number_end(b, p + 2);
    }
    lemma_ident_end(b, p);
    lemma_ident_end(b, p + 1);
    if is_digit(b[p]) {
        assert(number_end(b, p).0 > p);
    }
    if b[p] == 45 && p + 1 < b.len() && is_digit(b[p + 1]) {
        assert(number_end(b, p + 1).0 > p + 1);
    }
    if is_alpha(b[p]) {
        assert(ident_end(b, p) > p);
    }
}

/// Lexing again from the start of a token that a step produced gives the same
/// token; for inputs that 32-bit spans can address, the token's span is
/// exactly its offsets, and the step never moves backwards.
pub proof fn lemma_lex_step(b: Seq<u8>, fi: usize, p: int)
    requires
        b.len() < u32::MAX,
        0 <= p <= b.len() + 1,
    ensures
        match lex_step(b, fi, p) {
            LexStep::End(q) => p <= q <= b.len(),
            LexStep::Emit(t, e) => {
                &&& p <= t.span.start as int <= e <= b.len() + 1
                &&& t.span.start as int == skip_ws(b, p)
                &&& t.span.start < b.len()
                &&& t.span.end as int == e
                &&& t.span.index == fi
                &&& lex_step(b, fi, t.span.start as int) == LexStep::Emit(t, e)
                &&& (e == t.span.start as int ==> b[t.span.start as int] == 43 && t.kind == TokenKind::Literal(Literal::Integer))
            },
            LexStep::Panic => true,
        },
{
    if p <= b.len() {
        lemma_skip_ws(b, p);
        let q = skip_ws(b, p);
        if q < b.len() {
            lemma_scan_token(b, q);
            assert(skip_ws(b, q) == q);
        }
    }
}

proof fn lemma_ident_bytes(b: Seq<u8>, j: int)
    requires
        0 <= j <= b.len(),
    ensures
        j <= ident_end(b, j) <= b.len(),
        forall|k: int| j <= k < ident_end(b, j) ==> is_ident_byte(#[trigger] b[k]),
        ident_end(b, j) < b.len() ==> !is_ident_byte(b[ident_end(b, j)]),
    decreases b.len() - j,
{
    if 0 <= j < b.len() && is_ident_byte(b[j]) {
        lemma_ident_bytes(b, j + 1);
    }
}

/// An identifier token is an ASCII letter followed by as many ASCII letters,
/// digits and underscores as follow it; the words `true` and `false`, when
/// no ASCII letter or digit follows them, are literals instead.
pub proof fn law_ident_tokens(b: Seq<u8>, fi: usize, p: int)
    requires
        b.len() < u32::MAX,
        0 <= p <= b.len(),
    ensures
        match lex_step(b, fi, p) {
            LexStep::Emit(t, e) => t.kind == TokenKind::Ident ==> {
                &&& is_alpha(b[t.span.start as int])
                &&& forall|k: int| t.span.start < k < e ==> is_ident_byte(#[trigger] b[k])
                &&& e < b.len() ==> !is_ident_byte(b[e])
                &&& !word_at(b, t.span.start as int, kw_true())
                &&& !word_at(b, t.span.start as int, kw_false())
            },
            _ => true,
        },
{
    lemma_lex_step(b, fi, p);
    lemma_skip_ws(b, p);
    let q = skip_ws(b, p);
    if q < b.len() {
        lemma_ident_bytes(b, q);
        if word_at(b, q, kw_true()) {
            assert(b.subrange(q, q + 4) == kw_true());
            assert(b[q] == b.subrange(q, q + 4)[0]);
        }
        if word_at(b, q, kw_false()) {
            assert(b.subrange(q, q + 5) == kw_false());
            assert(b[q] == b.subrange(q, q + 5)[0]);
        }
    }
}

// ---------------------------------------------------------------------------
// The lexer

/// A lexer over the text of one file.
pub struct Lexer<'a> {
    text: &'a str,
    input: &'a [u8],
    file_index: usize,
    position: usize,
}

impl<'a> Lexer<'a> {
    /// The bytes of the input.
    pub closed spec fn bytes(&self) -> Seq<u8> {
        self.input@
    }

    /// The file index that the lexer stamps on spans.
    pub closed spec fn file(&self) -> usize {
        self.file_index
    }

    /// The current byte position.
    pub closed spec fn pos(&self) -> int {
        self.position as int
    }

    /// The text that the lexer reads.
    pub closed spec fn source(&self) -> &'a str {
        self.text
    }

    pub closed spec fn wf(&self) -> bool {
        &&& self.input@ == self.text.spec_bytes()
        &&& self.input@.len() <= isize::MAX
        &&& self.position <= self.input@.len() + 1
    }

    pub proof fn lemma_wf(&self)
        requires
            self.wf(),
        ensures
            0 <= self.pos() <= self.bytes().len() + 1,
            self.bytes() == self.source().spec_bytes(),
            self.bytes().len() <= isize::MAX,
    {
    }

    pub fn new(input: &'a str, file_index: usize) -> (r: Lexer<'a>)
        requires
            input.spec_bytes().len() <= isize::MAX,
        ensures
            r.wf(),
            r.bytes() == input.spec_bytes(),
            r.source() == input,
            r.file() == file_index,
            r.pos() == 0,
    {
        let bytes = input.as_bytes();
        Lexer { text: input, input: bytes, file_index, position: 0 }
    }

    /// The current byte position.
    pub fn position(&self) -> (r: usize)
        ensures
            r == self.pos(),
    {
        self.position
    }

    /// An empty span at the current position.
    pub fn unknown(&self) -> (r: SourceSpan)
        ensures
            r == (SourceSpan { index: self.file(), start: self.pos() as u32, end: self.pos() as u32 }),
    {
        SourceSpan::new(self.file_index, self.position, self.position)
    }

    /// The text of a span; the span must lie on character boundaries.
    pub fn read_str(&self, span: SourceSpan) -> (r: &'a str)
        requires
            self.wf(),
            span_readable(self.bytes(), span.start as int, span.end as int),
        ensures
            r@ == span_text(self.bytes(), span.start as int, span.end as int),
            r.spec_bytes() == self.bytes().subrange(span.start as int, span.end as int),
    {
        substr(self.text, span.start as usize, span.end as usize)
    }

    /// Whether the text of a span can be read: its ends lie on character
    /// boundaries, in order, within the input.
    pub fn can_read(&self, span: SourceSpan) -> (r: bool)
        requires
            self.wf(),
        ensures
            r == span_readable(self.bytes(), span.start as int, span.end as int),
    {
        let start = span.start as usize;
        let end = span.end as usize;
        start <= end && end <= self.input.len() && self.text.is_char_boundary(start)
            && self.text.is_char_boundary(end)
    }

    /// Whether `s` occurs at or after `q`.
    fn occurs_from(&self, q: usize, s: &[u8]) -> (r: bool)
        requires
            q <= self.input@.len(),
        ensures
            r == (find_end(self.input@, q as int, s@) is Some),
    {
        let mut k = q;
        loop
            invariant
                q <= k <= self.input@.len(),
                find_end(self.input@, q as int, s@) == find_end(self.input@, k as int, s@),
            decreases self.input@.len() - k,
        {
            if self.occurs_here(k, s) {
                return true;
            }
            if k == self.input.len() {
                assert(find_end(self.input@, k + 1, s@) is None);
                return false;
            }
            k += 1;
        }
    }

    /// Whether the next call of `next_token` panics: the position is past the
    /// end, or the next token is a block comment without `*/`.
    pub fn would_panic(&self) -> (r: bool)
        requires
            self.wf(),
        ensures
            r == (lex_step(self.bytes(), self.file(), self.pos()) is Panic),
    {
        if self.position > self.input.len() {
            return true;
        }
        let ghost b = self.input@;
        let mut p = self.position;
        while p < self.input.len() && ws_byte(self.input[p])
            invariant
                self.position <= p <= b.len(),
                b == self.input@,
                skip_ws(b, self.position as int) == skip_ws(b, p as int),
            decreases b.len() - p,
        {
            p += 1;
        }
        assert(skip_ws(b, p as int) == p);
        if p >= self.input.len() {
            return false;
        }
        if self.input[p] != 47 {
            return false;
        }
        let next = self.byte(p + 1);
        if next == Some(47u8) {
            false
        } else if next == Some(42u8) {
            let close: [u8; 2] = [42, 47];
            assert(close@ == block_close());
            !self.occurs_from(p, close.as_slice())
        } else {
            false
        }
    }

    fn byte(&self, i: usize) -> (r: Option<u8>)
        ensures
            r == byte_at(self.input@, i as int),
    {
        if i < self.input.len() {
            Some(self.input[i])
        } else {
            None
        }
    }

    /// Skips ascii whitespace and returns true if any whitespace was skipped.
    fn whitespace(&mut self) -> (r: bool)
        requires
            old(self).wf(),
            old(self).pos() <= old(self).bytes().len(),
        ensures
            final(self).wf(),
            final(self).bytes() == old(self).bytes(),
            final(self).file() == old(self).file(),
            final(self).source() == old(self).source(),
            final(self).pos() == skip_ws(old(self).bytes(), old(self).pos()),
            r == (final(self).pos() > old(self).pos()),
    {
        let start = self.position;
        let ghost p0 = self.position as int;
        while self.position < self.input.len() && ws_byte(self.input[self.position])
            invariant
                self.wf(),
                self.input@ == old(self).input@,
                self.text == old(self).text,
                self.file_index == old(self).file_index,
                start <= self.position <= self.input@.len(),
                skip_ws(self.input@, p0) == skip_ws(self.input@, self.position as int),
            decreases self.input@.len() - self.position,
        {
            self.position += 1;
        }
        self.position > start
    }

    /// Skips the rest of the current line, excluding the newline character(s).
    pub fn line(&mut self)
        requires
            old(self).wf(),
        ensures
            final(self).wf(),
            final(self).bytes() == old(self).bytes(),
            final(self).file() == old(self).file(),
            final(self).source() == old(self).source(),
            final(self).pos() == line_end(old(self).bytes(), old(self).pos()),
    {
        let ghost p0 = self.position as int;
        while self.position < self.input.len() && self.input[self.position] != 10
            && self.input[self.position] != 13
            invariant
                self.wf(),
                self.input@ == old(self).input@,
                self.text == old(self).text,
                self.file_index == old(self).file_index,
                p0 <= self.position,
                line_end(self.input@, p0) == line_end(self.input@, self.position as int),
            decreases self.input@.len() + 1 - self.position,
        {
            self.position += 1;
        }
    }

    fn occurs_here(&self, q: usize, s: &[u8]) -> (r: bool)
        requires
            q <= self.input@.len(),
        ensures
            r == occurs_at(self.input@, q as int, s@),
    {
        if s.len() > self.input.len() - q {
            return false;
        }
        let mut i: usize = 0;
        while i < s.len()
            invariant
                q + s@.len() <= self.input@.len(),
                self.input@.len() <= usize::MAX,
                i <= s@.len(),
                forall|k: int| 0 <= k < i ==> self.input@[q + k] == s@[k],
            decreases s@.len() - i,
        {
            if self.input[q + i] != s[i] {
                assert(self.input@.subrange(q as int, q + s@.len())[i as int] != s@[i as int]);
                return false;
            }
            i += 1;
        }
        assert(self.input@.subrange(q as int, q + s@.len()) =~= s@);
        true
    }

    /// Advances past the first occurrence of `s` at or after the position.
    fn until(&mut self, s: &[u8])
        requires
            old(self).wf(),
            find_end(old(self).bytes(), old(self).pos(), s@) is Some,
        ensures
            final(self).wf(),
            final(self).bytes() == old(self).bytes(),
            final(self).file() == old(self).file(),
            final(self).source() == old(self).source(),
            final(self).pos() == find_end(old(self).bytes(), old(self).pos(), s@).unwrap(),
    {
        let ghost p0 = self.position as int;
        proof {
            lemma_find_end(self.input@, p0, s@);
        }
        let mut q = self.position;
        loop
            invariant
                self.wf(),
                self.input@ == old(self).input@,
                self.text == old(self).text,
                self.file_index == old(self).file_index,
                self.position == old(self).position,
                q <= self.input@.len(),
                find_end(self.input@, q as int, s@) is Some,
                find_end(self.input@, p0, s@) == find_end(self.input@, q as int, s@),
            ensures
                occurs_at(self.input@, q as int, s@),
            decreases self.input@.len() - q,
        {
            if self.occurs_here(q, s) {
                break;
            }
            q += 1;
        }
        self.position = q + s.len();
    }

    fn emit(&self, kind: TokenKind, start: usize, end: usize) -> (r: Token)
        ensures
            r == (Token { kind, span: SourceSpan { index: self.file(), start: start as u32, end: end as u32 } }),
    {
        Token { kind, span: SourceSpan::new(self.file_index, start, end) }
    }

    fn punct(&mut self, punct: Punct, chrs: usize) -> (r: Token)
        requires
            old(self).wf(),
            old(self).pos() + chrs <= old(self).bytes().len(),
        ensures
            final(self).wf(),
            final(self).bytes() == old(self).bytes(),
            final(self).file() == old(self).file(),
            final(self).source() == old(self).source(),
            final(self).pos() == old(self).pos() + chrs,
            r == (Token {
                kind: TokenKind::Punct(punct),
                span: SourceSpan { index: old(self).file(), start: old(self).pos() as u32, end: (old(self).pos() + chrs) as u32 },
            }),
    {
        let start = self.position;
        self.position += chrs;
        self.emit(TokenKind::Punct(punct), start, self.position)
    }

    fn comment(&mut self) -> (r: Token)
        requires
            old(self).wf(),
            old(self).pos() < old(self).bytes().len(),
            old(self).bytes()[old(self).pos()] == 47,
            byte_at(old(self).bytes(), old(self).pos() + 1) == Some(47u8) || byte_at(old(self).bytes(), old(self).pos() + 1)
                == Some(42u8),
            scan_token(old(self).bytes(), old(self).pos()) is Tok,
        ensures
            final(self).wf(),
            final(self).bytes() == old(self).bytes(),
            final(self).file() == old(self).file(),
            final(self).source() == old(self).source(),
            scan_token(old(self).bytes(), old(self).pos()) == Scan::Tok(TokenKind::Comment, final(self).pos()),
            r == (Token {
                kind: TokenKind::Comment,
                span: SourceSpan { index: old(self).file(), start: old(self).pos() as u32, end: final(self).pos() as u32 },
            }),
    {
        let start = self.position;
        let next = self.byte(start + 1);
        if next == Some(47u8) {
            self.line();
            return self.emit(TokenKind::Comment, start, self.position);
        }
        let close: [u8; 2] = [42, 47];
        assert(close@ == block_close());
        self.until(close.as_slice());
        self.emit(TokenKind::Comment, start, self.position)
    }

    fn quoted(&mut self, quote: u8, kind: TokenKind) -> (r: Token)
        requires
            old(self).wf(),
            old(self).pos() < old(self).bytes().len(),
        ensures
            final(self).wf(),
            final(self).bytes() == old(self).bytes(),
            final(self).file() == old(self).file(),
            final(self).source() == old(self).source(),
            quoted_end(old(self).bytes(), old(self).pos() + 1, quote).0 == final(self).pos(),
            r == (Token {
                kind: if quoted_end(old(self).bytes(), old(self).pos() + 1, quote).1 { kind } else { TokenKind::Error },
                span: SourceSpan { index: old(self).file(), start: old(self).pos() as u32, end: final(self).pos() as u32 },
            }),
    {
        let start = self.position;
        self.position += 1;
        let ghost p1 = self.position as int;
        while self.position < self.input.len()
            invariant
                self.wf(),
                self.input@ == old(self).input@,
                self.text == old(self).text,
                self.file_index == old(self).file_index,
                p1 <= self.position <= self.input@.len() + 1,
                p1 == old(self).position + 1,
                start == old(self).position,
                quoted_end(self.input@, p1, quote) == quoted_end(self.input@, self.position as int, quote),
            decreases self.input@.len() + 1 - self.position,
        {
            let c = self.input[self.position];
            let ghost j = self.position as int;
            self.position += 1;
            if c == quote {
                assert(quoted_end(self.input@, j, quote) == (j + 1, true));
                return self.emit(kind, start, self.position);
            }
            if c == 92 {
                self.position += 1;
            }
        }
        self.emit(TokenKind::Error, start, self.position)
    }

    fn number_literal(&mut self) -> (r: Token)
        requires
            old(self).wf(),
            old(self).pos() < old(self).bytes().len(),
        ensures
            final(self).wf(),
            final(self).bytes() == old(self).bytes(),
            final(self).file() == old(self).file(),
            final(self).source() == old(self).source(),
            ({
                let b = old(self).bytes();
                let p = old(self).pos();
                let (e, float) = if b[p] == 45 { number_end(b, p + 1) } else { number_end(b, p) };
                &&& final(self).pos() == e
                &&& r == (Token {
                    kind: TokenKind::Literal(if float { Literal::Float } else { Literal::Integer }),
                    span: SourceSpan { index: old(self).file(), start: p as u32, end: e as u32 },
                })
            }),
    {
        let start = self.position;
        if self.input[self.position] == 45 {
            self.position += 1;
        }
        let ghost p1 = self.position as int;
        let mut float = false;
        while self.position < self.input.len()
            invariant_except_break
                self.wf(),
                self.input@ == old(self).input@,
                self.text == old(self).text,
                self.file_index == old(self).file_index,
                p1 <= self.position <= self.input@.len(),
                number_end(self.input@, p1).0 == number_end(self.input@, self.position as int).0,
                number_end(self.input@, p1).1 == (float || number_end(self.input@, self.position as int).1),
            ensures
                self.wf(),
                self.input@ == old(self).input@,
                self.text == old(self).text,
                self.file_index == old(self).file_index,
                number_end(self.input@, p1) == (self.position as int, float),
            decreases self.input@.len() - self.position,
        {
            let c = self.input[self.position];
            if digit_byte(c) {
                self.position += 1;
            } else if c == 46 || c == 101 || c == 69 {
                self.position += 1;
                float = true;
                if (c == 101 || c == 69) && self.position < self.input.len() && (self.input[self.position] == 45
                    || self.input[self.position] == 43) {
                    self.position += 1;
                }
            } else {
                break;
            }
        }
        self.emit(TokenKind::Literal(if float { Literal::Float } else { Literal::Integer }), start, self.position)
    }

    fn identifier(&mut self) -> (r: Token)
        requires
            old(self).wf(),
            old(self).pos() < old(self).bytes().len(),
        ensures
            final(self).wf(),
            final(self).bytes() == old(self).bytes(),
            final(self).file() == old(self).file(),
            final(self).source() == old(self).source(),
            final(self).pos() == ident_end(old(self).bytes(), old(self).pos()),
            r == (Token {
                kind: TokenKind::Ident,
                span: SourceSpan { index: old(self).file(), start: old(self).pos() as u32, end: final(self).pos() as u32 },
            }),
    {
        let start = self.position;
        let ghost p0 = self.position as int;
        while self.position < self.input.len() && (alnum_byte(self.input[self.position]) || self.input[self.position] == 95)
            invariant
                self.wf(),
                self.input@ == old(self).input@,
                self.text == old(self).text,
                self.file_index == old(self).file_index,
                p0 <= self.position <= self.input@.len(),
                ident_end(self.input@, p0) == ident_end(self.input@, self.position as int),
            decreases self.input@.len() - self.position,
        {
            self.position += 1;
        }
        self.emit(TokenKind::Ident, start, self.position)
    }

    fn word(&self, p: usize, kw: &[u8]) -> (r: bool)
        requires
            self.wf(),
            p <= self.input@.len(),
        ensures
            r == word_at(self.input@, p as int, kw@),
    {
        if !self.occurs_here(p, kw) {
            return false;
        }
        assert(p + kw@.len() <= self.input@.len());
        match self.byte(p + kw.len()) {
            Some(c) => !alnum_byte(c),
            None => true,
        }
    }

    /// Produces the next token, or nothing at the end of the input.
    pub fn next_token(&mut self) -> (r: Option<Token>)
        requires
            old(self).wf(),
            !(lex_step(old(self).bytes(), old(self).file(), old(self).pos()) is Panic),
        ensures
            final(self).wf(),
            final(self).bytes() == old(self).bytes(),
            final(self).file() == old(self).file(),
            final(self).source() == old(self).source(),
            match lex_step(old(self).bytes(), old(self).file(), old(self).pos()) {
                LexStep::End(p) => r is None && final(self).pos() == p,
                LexStep::Emit(t, e) => r == Some(t) && final(self).pos() == e,
                LexStep::Panic => false,
            },
    {
        self.whitespace();
        proof {
            lemma_skip_ws(self.input@, old(self).position as int);
        }
        if self.position >= self.input.len() {
            return None;
        }
        let ghost b = self.input@;
        let p = self.position;
        proof {
            lemma_scan_token(b, p as int);
        }
        let c = self.input[p];
        let next = self.byte(p + 1);
        let kw_t: [u8; 4] = [116, 114, 117, 101];
        let kw_f: [u8; 5] = [102, 97, 108, 115, 101];
        assert(kw_t@ == kw_true());
        assert(kw_f@ == kw_false());
        let token = if c == 116 && self.word(p, kw_t.as_slice()) {
            self.position += 4;
            self.emit(TokenKind::Literal(Literal::Bool), p, self.position)
        } else if c == 102 && self.word(p, kw_f.as_slice()) {
            self.position += 5;
            self.emit(TokenKind::Literal(Literal::Bool), p, self.position)
        } else if c == 47 && (next == Some(47u8) || next == Some(42u8)) {
            self.comment()
        } else if c == 34 {
            self.quoted(34, TokenKind::Literal(Literal::String))
        } else if c == 39 {
            self.quoted(39, TokenKind::Literal(Literal::Char))
        } else if digit_byte(c) || (c == 43 && next.is_some() && digit_byte(next.unwrap())) {
            self.number_literal()
        } else if c == 45 && next.is_some() && digit_byte(next.unwrap()) {
            self.number_literal()
        } else if alpha_byte(c) {
            self.identifier()
        } else if c == 45 && next == Some(62u8) {
            self.punct(Punct::Arrow, 2)
        } else if c == 40 {
            self.punct(Punct::LParen, 1)
        } else if c == 41 {
            self.punct(Punct::RParen, 1)
        } else if c == 91 {
            self.punct(Punct::LBracket, 1)
        } else if c == 93 {
            self.punct(Punct::RBracket, 1)
        } else if c == 123 {
            self.punct(Punct::LBrace, 1)
        } else if c == 125 {
            self.punct(Punct::RBrace, 1)
        } else if c == 44 {
            self.punct(Punct::Comma, 1)
        } else if c == 59 {
            self.punct(Punct::Semicolon, 1)
        } else if c == 58 {
            self.punct(Punct::Colon, 1)
        } else if c == 61 {
            self.punct(Punct::Eq, 1)
        } else if c == 63 {
            self.punct(Punct::QuestionMark, 1)
        } else if c == 33 {
            self.punct(Punct::ExclamationMark, 1)
        } else if c == 124 {
            self.punct(Punct::Pipe, 1)
        } else if c == 46 {
            self.punct(Punct::Dot, 1)
        } else if c == 42 {
            self.punct(Punct::Star, 1)
        } else if c == 45 {
            self.punct(Punct::Dash, 1)
        } else if c == 35 {
            self.punct(Punct::Hash, 1)
        } else {
            let start = self.position;
            self.position = self.input.len();
            self.emit(TokenKind::Error, start, self.position)
        };
        Some(token)
    }
}

} // verus!
