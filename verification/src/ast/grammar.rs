//! The parser's behaviour, stated as functions from a parser state to a result
//! and the next state. The state is the lexer position in the input, the
//! diagnostics reported so far, and a flag that is raised where the parser
//! would panic or stall: it reads text between offsets that are not
//! character boundaries, consumes a stalled (empty) token, lexes where the
//! lexer panics, or loops without consuming input.
use crate::ast::dom::{
    EnumReprType, PrimitiveType, SAttrKind, SAttribute, SEnumItem, SEnumMember, SEnumMembers,
    SErrorItem, SErrorVariant, SErrorVariants, SFnItem, SHandleItem, SIdent, SItem, SModuleItem,
    SStructField, SStructFields, SStructItem, STypeDecl, STypeDeclKind, STypeName, StructDirection,
    TypeModifier,
};
use crate::ast::lexer::{
    is_ws, lemma_lex_step, lex_step, occurs_at, LexStep, Literal, Punct, Token, TokenKind,
};
use crate::error::{Error, ErrorKind};
use crate::num::spec_parse_in;
use crate::span::{span_readable, span_text, SourceSpan};
use vstd::prelude::*;
use vstd::string::StringSliceAdditionalSpecFns;

verus! {

/// What the parser reads: the bytes of the input and the file index.
pub struct Ctx {
    pub bytes: Seq<u8>,
    pub fi: usize,
}

/// The parser state: lexer position, diagnostics, and whether the parser has
/// halted (panicked or stalled).
pub struct PState {
    pub pos: int,
    pub errors: Seq<Error>,
    pub halted: bool,
}

// ---------------------------------------------------------------------------
// State primitives

pub open spec fn halt(s: PState) -> PState {
    PState { pos: s.pos, errors: s.errors, halted: true }
}

pub open spec fn at(s: PState, pos: int) -> PState {
    PState { pos, errors: s.errors, halted: s.halted }
}

pub open spec fn err(s: PState, kind: ErrorKind, span: SourceSpan) -> PState {
    PState { pos: s.pos, errors: s.errors.push(Error { kind, span }), halted: s.halted }
}

/// The empty span at the current position.
pub open spec fn unknown(c: Ctx, s: PState) -> SourceSpan {
    SourceSpan { index: c.fi, start: s.pos as u32, end: s.pos as u32 }
}

/// The state may still move on: not halted, the position within the input
/// (or one past it), and the input short enough for 32-bit spans.
pub open spec fn live(c: Ctx, s: PState) -> bool {
    &&& !s.halted
    &&& 0 <= s.pos <= c.bytes.len() + 1
    &&& c.bytes.len() < u32::MAX
}

/// The input is short enough for 32-bit spans and for an allocation.
pub open spec fn input_fits(b: Seq<u8>) -> bool {
    b.len() < u32::MAX && b.len() <= isize::MAX
}

/// `s2` is not behind `s`.
pub open spec fn fwd(c: Ctx, s: PState, s2: PState) -> bool {
    s.pos <= s2.pos <= c.bytes.len() + 1
}

/// `s2` is ahead of `s`.
pub open spec fn adv(c: Ctx, s: PState, s2: PState) -> bool {
    s.pos < s2.pos <= c.bytes.len() + 1
}

pub open spec fn measure(c: Ctx, s: PState) -> int {
    c.bytes.len() + 2 - s.pos
}

/// Looks at the next token without consuming it; the position moves past
/// whitespace to the token's start.
pub open spec fn peek(c: Ctx, s: PState) -> (Option<Token>, PState) {
    if s.halted {
        (None, s)
    } else {
        match lex_step(c.bytes, c.fi, s.pos) {
            LexStep::End(p) => (None, at(s, p)),
            LexStep::Emit(t, e) => (Some(t), at(s, t.span.start as int)),
            LexStep::Panic => (None, halt(s)),
        }
    }
}

/// Consumes a token that was peeked; consuming an empty (stalled) token halts.
pub open spec fn take(s: PState, t: Token) -> PState {
    if t.span.end as int <= t.span.start as int {
        halt(s)
    } else {
        at(s, t.span.end as int)
    }
}

pub open spec fn next(c: Ctx, s: PState) -> (Option<Token>, PState) {
    let (t, s1) = peek(c, s);
    match t {
        None => (None, s1),
        Some(tok) => (Some(tok), take(s1, tok)),
    }
}

/// Looking again after a look that found a token finds the same token, and
/// consuming it then is consuming it in the first place.
pub proof fn lemma_peek_again(c: Ctx, s: PState)
    requires
        0 <= s.pos <= c.bytes.len() + 1,
        c.bytes.len() < u32::MAX,
        peek(c, s).0 is Some,
    ensures
        peek(c, peek(c, s).1) == peek(c, s),
        next(c, peek(c, s).1) == next(c, s),
{
    lemma_lex_step(c.bytes, c.fi, s.pos);
}

/// Consumes the next token if `pred` holds of it.
pub open spec fn next_if(c: Ctx, s: PState, pred: spec_fn(Token) -> bool) -> (Option<Token>, PState) {
    let (t, s1) = peek(c, s);
    match t {
        None => (None, s1),
        Some(tok) => if pred(tok) {
            (Some(tok), take(s1, tok))
        } else {
            (None, s1)
        },
    }
}

/// Like `peek`, and at the end of the input reports `kind` at the position.
pub open spec fn peek_or_error(c: Ctx, s: PState, kind: ErrorKind) -> (Option<Token>, PState) {
    let (t, s1) = peek(c, s);
    match t {
        None => (None, err(s1, kind, unknown(c, s1))),
        Some(tok) => (Some(tok), s1),
    }
}

/// Like `next`, and at the end of the input reports `kind` at the position.
pub open spec fn next_or_error(c: Ctx, s: PState, kind: ErrorKind) -> (Option<Token>, PState) {
    let (t, s1) = next(c, s);
    match t {
        None => (None, err(s1, kind, unknown(c, s1))),
        Some(tok) => (Some(tok), s1),
    }
}

/// Reads the text of a span; a span off the character boundaries halts.
pub open spec fn read(c: Ctx, s: PState, span: SourceSpan) -> (Seq<char>, PState) {
    if span_readable(c.bytes, span.start as int, span.end as int) {
        (span_text(c.bytes, span.start as int, span.end as int), s)
    } else {
        (seq![], halt(s))
    }
}

/// The bytes that a span covers.
pub open spec fn span_bytes(c: Ctx, span: SourceSpan) -> Seq<u8> {
    c.bytes.subrange(span.start as int, span.end as int)
}

/// Reads the bytes of a span; like `read`, a span off the character
/// boundaries halts and reads nothing.
pub open spec fn read_bytes(c: Ctx, s: PState, span: SourceSpan) -> (Seq<u8>, PState) {
    if span_readable(c.bytes, span.start as int, span.end as int) {
        (span_bytes(c, span), s)
    } else {
        (seq![], halt(s))
    }
}

/// The smallest span that covers both.
pub open spec fn join(a: SourceSpan, b: SourceSpan) -> SourceSpan {
    SourceSpan {
        index: a.index,
        start: if a.start <= b.start { a.start } else { b.start },
        end: if a.end >= b.end { a.end } else { b.end },
    }
}

/// An identifier made of a token and the text it reads.
pub open spec fn ident(c: Ctx, s: PState, t: Token) -> (SIdent, PState) {
    let (name, s1) = read(c, s, t.span);
    (SIdent { span: t.span, name }, s1)
}

pub open spec fn is_punct(t: Token, p: Punct) -> bool {
    t.kind == TokenKind::Punct(p)
}

// ---------------------------------------------------------------------------
// Attributes

/// The first offset at or after `i` where `pat` does not occur.
pub open spec fn strip_prefixes(cb: Seq<u8>, i: int, pat: Seq<u8>) -> int
    decreases cb.len() - i,
{
    if pat.len() > 0 && 0 <= i && occurs_at(cb, i, pat) {
        strip_prefixes(cb, i + pat.len(), pat)
    } else {
        i
    }
}

/// Moves the end `j` back over repeated occurrences of `pat` that end there,
/// never before `lo`.
pub open spec fn strip_suffixes(cb: Seq<u8>, lo: int, j: int, pat: Seq<u8>) -> int
    decreases j,
{
    if pat.len() > 0 && lo <= j - pat.len() && j >= 0 && occurs_at(cb, j - pat.len(), pat) {
        strip_suffixes(cb, lo, j - pat.len(), pat)
    } else {
        j
    }
}

pub open spec fn trim_start_ws(cb: Seq<u8>, i: int, j: int) -> int
    decreases j - i,
{
    if 0 <= i < j && i < cb.len() && is_ws(cb[i]) {
        trim_start_ws(cb, i + 1, j)
    } else {
        i
    }
}

pub open spec fn trim_end_ws(cb: Seq<u8>, i: int, j: int) -> int
    decreases j - i,
{
    if 0 <= i < j && j <= cb.len() && is_ws(cb[j - 1]) {
        trim_end_ws(cb, i, j - 1)
    } else {
        j
    }
}

/// `///`
pub open spec fn doc_line() -> Seq<u8> {
    seq![47u8, 47, 47]
}

/// `/**`
pub open spec fn doc_block() -> Seq<u8> {
    seq![47u8, 42, 42]
}

/// `*/`
pub open spec fn block_end() -> Seq<u8> {
    seq![42u8, 47]
}

/// A comment is a doc comment when it starts with `///` or `/**`.
pub open spec fn is_doc_comment(cb: Seq<u8>) -> bool {
    occurs_at(cb, 0, doc_line()) || occurs_at(cb, 0, doc_block())
}

/// The range of a doc comment's text: `///` and `/**` stripped from the
/// start (each as often as it repeats), `*/` from the end, then ASCII
/// whitespace from both ends.
pub open spec fn doc_range(cb: Seq<u8>) -> (int, int) {
    let a1 = strip_prefixes(cb, 0, doc_line());
    let a2 = strip_prefixes(cb, a1, doc_block());
    let b1 = strip_suffixes(cb, a2, cb.len() as int, block_end());
    let a3 = trim_start_ws(cb, a2, b1);
    let b3 = trim_end_ws(cb, a3, b1);
    (a3, b3)
}

pub proof fn lemma_strip_prefixes(cb: Seq<u8>, i: int, pat: Seq<u8>)
    requires
        0 <= i <= cb.len(),
        pat.len() > 0,
    ensures
        i <= strip_prefixes(cb, i, pat) <= cb.len(),
        strip_prefixes(cb, i, pat) == i || cb[strip_prefixes(cb, i, pat) - 1] == pat.last(),
    decreases cb.len() - i,
{
    if pat.len() > 0 && 0 <= i && occurs_at(cb, i, pat) {
        lemma_strip_prefixes(cb, i + pat.len(), pat);
        let j = strip_prefixes(cb, i + pat.len(), pat);
        if j == i + pat.len() {
            assert(cb.subrange(i, i + pat.len())[pat.len() - 1] == cb[i + pat.len() - 1]);
        }
    }
}

pub proof fn lemma_strip_suffixes(cb: Seq<u8>, lo: int, j: int, pat: Seq<u8>)
    requires
        0 <= lo <= j <= cb.len(),
        pat.len() > 0,
    ensures
        lo <= strip_suffixes(cb, lo, j, pat) <= j,
        strip_suffixes(cb, lo, j, pat) == j || cb[strip_suffixes(cb, lo, j, pat)] == pat[0],
    decreases j,
{
    if pat.len() > 0 && lo <= j - pat.len() && j >= 0 && occurs_at(cb, j - pat.len(), pat) {
        lemma_strip_suffixes(cb, lo, j - pat.len(), pat);
        let k = strip_suffixes(cb, lo, j - pat.len(), pat);
        if k == j - pat.len() {
            assert(cb.subrange(j - pat.len(), j)[0] == cb[j - pat.len()]);
        }
    }
}

pub proof fn lemma_trim_start_ws(cb: Seq<u8>, i: int, j: int)
    requires
        0 <= i <= j <= cb.len(),
    ensures
        i <= trim_start_ws(cb, i, j) <= j,
        trim_start_ws(cb, i, j) == i || is_ws(cb[trim_start_ws(cb, i, j) - 1]),
    decreases j - i,
{
    if 0 <= i < j && i < cb.len() && is_ws(cb[i]) {
        lemma_trim_start_ws(cb, i + 1, j);
    }
}

pub proof fn lemma_trim_end_ws(cb: Seq<u8>, i: int, j: int)
    requires
        0 <= i <= j <= cb.len(),
    ensures
        i <= trim_end_ws(cb, i, j) <= j,
        trim_end_ws(cb, i, j) == j || is_ws(cb[trim_end_ws(cb, i, j) as int]),
    decreases j - i,
{
    if 0 <= i < j && j <= cb.len() && is_ws(cb[j - 1]) {
        lemma_trim_end_ws(cb, i, j - 1);
    }
}

/// The text range of a doc comment lies in the comment, and the bytes just
/// outside it are ASCII (or it reaches the comment's ends).
pub proof fn lemma_doc_range(cb: Seq<u8>)
    ensures
        0 <= doc_range(cb).0 <= doc_range(cb).1 <= cb.len(),
        doc_range(cb).0 == 0 || cb[doc_range(cb).0 - 1] < 0x80,
        doc_range(cb).1 == cb.len() || cb[doc_range(cb).1] < 0x80,
{
    let a1 = strip_prefixes(cb, 0, doc_line());
    lemma_strip_prefixes(cb, 0, doc_line());
    let a2 = strip_prefixes(cb, a1, doc_block());
    lemma_strip_prefixes(cb, a1, doc_block());
    let b1 = strip_suffixes(cb, a2, cb.len() as int, block_end());
    lemma_strip_suffixes(cb, a2, cb.len() as int, block_end());
    let a3 = trim_start_ws(cb, a2, b1);
    lemma_trim_start_ws(cb, a2, b1);
    let b3 = trim_end_ws(cb, a3, b1);
    lemma_trim_end_ws(cb, a3, b1);
}

pub open spec fn doc_attr(t: Token, cb: Seq<u8>) -> SAttribute {
    let (a, b) = doc_range(cb);
    SAttribute { kind: SAttrKind::Doc { span: t.span, comment: span_text(cb, a, b) }, span: t.span }
}

pub open spec fn pred_ident() -> spec_fn(Token) -> bool {
    |t: Token| t.kind == TokenKind::Ident
}

pub open spec fn pred_eq() -> spec_fn(Token) -> bool {
    |t: Token| t.kind == TokenKind::Punct(Punct::Eq)
}

pub open spec fn pred_value() -> spec_fn(Token) -> bool {
    |t: Token| t.kind is Ident || t.kind is Literal
}

/// `#name` or `#name = value` after the `#` token `hash`.
#[verifier::opaque]
pub open spec fn parse_hash_attr(c: Ctx, s: PState, hash: Token) -> (Option<SAttribute>, PState) {
    let (nt, s1) = next_if(c, s, pred_ident());
    match nt {
        None => (None, s1),
        Some(nt) => {
            let (name, s2) = ident(c, s1, nt);
            let (eq, s3) = next_if(c, s2, pred_eq());
            if eq is Some {
                let (vt, s4) = next_if(c, s3, pred_value());
                match vt {
                    None => (None, s4),
                    Some(vt) => {
                        let (value, s5) = read(c, s4, vt.span);
                        let kind = SAttrKind::Kv {
                            key: name,
                            value_span: vt.span,
                            value,
                            span: join(nt.span, vt.span),
                        };
                        (Some(SAttribute { kind, span: join(hash.span, vt.span) }), s5)
                    },
                }
            } else {
                (Some(SAttribute { kind: SAttrKind::Cmd { name }, span: join(hash.span, nt.span) }), s3)
            }
        },
    }
}

/// Doc comments and `#` attributes, collected after `acc`; other comments are
/// skipped.
pub open spec fn attrs_loop(c: Ctx, s: PState, acc: Seq<SAttribute>) -> (Seq<SAttribute>, PState)
    decreases measure(c, s),
{
    if !live(c, s) {
        (acc, halt(s))
    } else {
        let (t, s1) = peek(c, s);
        match t {
            None => (acc, s1),
            Some(tok) => if tok.kind == TokenKind::Comment {
                let (cb, s2) = read_bytes(c, s1, tok.span);
                let acc2 = if is_doc_comment(cb) { acc.push(doc_attr(tok, cb)) } else { acc };
                let (_, s3) = next(c, s2);
                if adv(c, s, s3) {
                    attrs_loop(c, s3, acc2)
                } else {
                    (acc2, halt(s3))
                }
            } else if is_punct(tok, Punct::Hash) {
                let (_, s2) = next(c, s1);
                let (a, s3) = parse_hash_attr(c, s2, tok);
                let acc2 = match a {
                    Some(x) => acc.push(x),
                    None => acc,
                };
                if adv(c, s, s3) {
                    attrs_loop(c, s3, acc2)
                } else {
                    (acc2, halt(s3))
                }
            } else {
                (acc, s1)
            },
        }
    }
}

pub open spec fn parse_attrs(c: Ctx, s: PState) -> (Seq<SAttribute>, PState) {
    attrs_loop(c, s, seq![])
}

// ---------------------------------------------------------------------------
// Recovery

pub open spec fn closer_of(k: TokenKind) -> Option<Punct> {
    match k {
        TokenKind::Punct(Punct::LParen) => Some(Punct::RParen),
        TokenKind::Punct(Punct::LBracket) => Some(Punct::RBracket),
        TokenKind::Punct(Punct::LBrace) => Some(Punct::RBrace),
        _ => None,
    }
}

pub open spec fn is_open(k: TokenKind) -> bool {
    closer_of(k) is Some
}

pub open spec fn is_close(k: TokenKind) -> bool {
    k == TokenKind::Punct(Punct::RParen) || k == TokenKind::Punct(Punct::RBracket) || k
        == TokenKind::Punct(Punct::RBrace)
}

/// Skips a bracketed group that starts at the next token, nested groups
/// included; an unmatched closing bracket inside is reported.
pub open spec fn skip_grouping(c: Ctx, s: PState) -> (bool, PState)
    decreases measure(c, s), 0int,
{
    if !live(c, s) {
        (false, halt(s))
    } else {
        let (left, s1) = peek(c, s);
        match left {
            None => (false, s1),
            Some(left) => match closer_of(left.kind) {
                None => (false, s1),
                Some(right) => {
                    let (_, s2) = next(c, s1);
                    if adv(c, s, s2) {
                        skip_loop(c, s2, left, right)
                    } else {
                        (false, halt(s2))
                    }
                },
            },
        }
    }
}

pub open spec fn skip_loop(c: Ctx, s: PState, left: Token, right: Punct) -> (bool, PState)
    decreases measure(c, s), 1int,
{
    if !live(c, s) {
        (false, halt(s))
    } else {
        let (t, s1) = peek(c, s);
        match t {
            None => (true, s1),
            Some(t) => if t.kind == TokenKind::Punct(right) {
                (true, next(c, s1).1)
            } else if is_open(t.kind) {
                if fwd(c, s, s1) {
                    let (_, s2) = skip_grouping(c, s1);
                    if adv(c, s, s2) {
                        skip_loop(c, s2, left, right)
                    } else {
                        (false, halt(s2))
                    }
                } else {
                    (false, halt(s1))
                }
            } else if is_close(t.kind) {
                (false, err(s1, ErrorKind::EUnmatchedBraces, left.span))
            } else {
                let (_, s2) = next(c, s1);
                if adv(c, s, s2) {
                    skip_loop(c, s2, left, right)
                } else {
                    (false, halt(s2))
                }
            },
        }
    }
}

/// The identifiers that start items.
pub open spec fn is_item_keyword(cb: Seq<u8>) -> bool {
    ||| cb == "module".spec_bytes()
    ||| cb == "enum".spec_bytes()
    ||| cb == "error".spec_bytes()
    ||| cb == "struct".spec_bytes()
    ||| cb == "in".spec_bytes()
    ||| cb == "out".spec_bytes()
    ||| cb == "fn".spec_bytes()
    ||| cb == "handle".spec_bytes()
}

/// Recovers until after the next semicolon, or up to the start of a new item.
pub open spec fn recover_item(c: Ctx, s: PState) -> PState
    decreases measure(c, s),
{
    if !live(c, s) {
        halt(s)
    } else {
        let (t, s1) = peek(c, s);
        match t {
            None => s1,
            Some(t) => if is_punct(t, Punct::Semicolon) {
                next(c, s1).1
            } else if is_open(t.kind) {
                let (_, s2) = skip_grouping(c, s1);
                if adv(c, s, s2) {
                    recover_item(c, s2)
                } else {
                    halt(s2)
                }
            } else if t.kind == TokenKind::Ident {
                let (tb, s2) = read_bytes(c, s1, t.span);
                if is_item_keyword(tb) {
                    s2
                } else {
                    let (_, s3) = next(c, s2);
                    if adv(c, s, s3) {
                        recover_item(c, s3)
                    } else {
                        halt(s3)
                    }
                }
            } else {
                let (_, s3) = next(c, s1);
                if adv(c, s, s3) {
                    recover_item(c, s3)
                } else {
                    halt(s3)
                }
            },
        }
    }
}

/// Recovery stops only after a `;`, before an identifier that starts an item,
/// or at the end of the input (or where the input gave out).
pub proof fn law_recover_item_stops(c: Ctx, s: PState)
    ensures
        !recover_item(c, s).halted ==> {
            ||| exists|m: PState|
                #![trigger next(c, m)]
                next(c, m).0 matches Some(t) && is_punct(t, Punct::Semicolon) && next(c, m).1 == recover_item(c, s)
            ||| peek(c, recover_item(c, s)).0 matches Some(t) && t.kind == TokenKind::Ident && is_item_keyword(
                read_bytes(c, recover_item(c, s), t.span).0,
            )
            ||| peek(c, recover_item(c, s)).0 is None
        },
    decreases measure(c, s),
{
    if live(c, s) {
        lemma_lex_step(c.bytes, c.fi, s.pos);
        let (t, s1) = peek(c, s);
        match t {
            None => {
                if !s1.halted {
                    assert(lex_step(c.bytes, c.fi, s1.pos) == LexStep::End(s1.pos));
                }
            },
            Some(tok) => {
                lemma_peek_again(c, s);
                if is_punct(tok, Punct::Semicolon) {
                    assert(next(c, s1).0 == Some(tok));
                } else if is_open(tok.kind) {
                    let (_, s2) = skip_grouping(c, s1);
                    if adv(c, s, s2) {
                        law_recover_item_stops(c, s2);
                    }
                } else if tok.kind == TokenKind::Ident {
                    let (tb, s2) = read_bytes(c, s1, tok.span);
                    if !is_item_keyword(tb) {
                        let (_, s3) = next(c, s2);
                        if adv(c, s, s3) {
                            law_recover_item_stops(c, s3);
                        }
                    }
                } else {
                    let (_, s3) = next(c, s1);
                    if adv(c, s, s3) {
                        law_recover_item_stops(c, s3);
                    }
                }
            },
        }
    }
}

/// Recovers until after the next comma; a closing bracket is not consumed.
pub open spec fn recover_comma(c: Ctx, s: PState) -> PState
    decreases measure(c, s),
{
    if !live(c, s) {
        halt(s)
    } else {
        let (t, s1) = peek(c, s);
        match t {
            None => s1,
            Some(t) => if is_punct(t, Punct::Comma) {
                next(c, s1).1
            } else if is_open(t.kind) {
                let (_, s2) = skip_grouping(c, s1);
                if adv(c, s, s2) {
                    recover_comma(c, s2)
                } else {
                    halt(s2)
                }
            } else if is_close(t.kind) {
                s1
            } else {
                let (_, s2) = next(c, s1);
                if adv(c, s, s2) {
                    recover_comma(c, s2)
                } else {
                    halt(s2)
                }
            },
        }
    }
}

/// Skips tokens until after the expected closing bracket, nested groups
/// included; another closing bracket is reported and stops the skip.
pub open spec fn recover_grouping(c: Ctx, s: PState, expected: Punct) -> PState
    decreases measure(c, s),
{
    if !live(c, s) {
        halt(s)
    } else {
        let (t, s1) = peek(c, s);
        match t {
            None => s1,
            Some(t) => if t.kind is Punct {
                if t.kind == TokenKind::Punct(expected) {
                    next(c, s1).1
                } else if is_open(t.kind) {
                    let (_, s2) = skip_grouping(c, s1);
                    if adv(c, s, s2) {
                        recover_grouping(c, s2, expected)
                    } else {
                        halt(s2)
                    }
                } else if is_close(t.kind) {
                    err(s1, ErrorKind::EUnmatchedBraces, t.span)
                } else {
                    let (_, s2) = next(c, s1);
                    if adv(c, s, s2) {
                        recover_grouping(c, s2, expected)
                    } else {
                        halt(s2)
                    }
                }
            } else {
                let (_, s2) = next(c, s1);
                if adv(c, s, s2) {
                    recover_grouping(c, s2, expected)
                } else {
                    halt(s2)
                }
            },
        }
    }
}


// ---------------------------------------------------------------------------
// Module and handle declarations

/// `attrs kw Ident ;` — the shape of module and handle declarations; the
/// result is the attributes, the identifier and the span from the keyword to
/// the semicolon.
#[verifier::opaque]
pub open spec fn parse_simple_decl(
    c: Ctx,
    s: PState,
    kw: &str,
    e_kw: ErrorKind,
    e_ident: ErrorKind,
    e_semi: ErrorKind,
) -> (Option<(Seq<SAttribute>, SIdent, SourceSpan)>, PState) {
    if s.halted {
        (None, s)
    } else {
        let (attrs, s1) = parse_attrs(c, s);
        let (kwt, s2) = next_or_error(c, s1, e_kw);
        match kwt {
            None => (None, s2),
            Some(kwt) => {
                let (tb, s3) = read_bytes(c, s2, kwt.span);
                if tb != kw.spec_bytes() {
                    (None, recover_item(c, err(s3, e_kw, kwt.span)))
                } else {
                    let (it, s4) = next_or_error(c, s3, e_ident);
                    match it {
                        None => (None, s4),
                        Some(it) => if it.kind != TokenKind::Ident {
                            (None, recover_item(c, err(s4, e_ident, it.span)))
                        } else {
                            let (id, s5) = ident(c, s4, it);
                            let (pt, s6) = next_or_error(c, s5, e_semi);
                            match pt {
                                None => (None, s6),
                                Some(pt) => if !is_punct(pt, Punct::Semicolon) {
                                    (None, recover_item(c, err(s6, e_semi, pt.span)))
                                } else {
                                    (Some((attrs, id, join(kwt.span, pt.span))), s6)
                                },
                            }
                        },
                    }
                }
            },
        }
    }
}

#[verifier::opaque]
pub open spec fn parse_module(c: Ctx, s: PState) -> (Option<SModuleItem>, PState) {
    let (r, s1) = parse_simple_decl(
        c,
        s,
        "module",
        ErrorKind::EModuleExpected,
        ErrorKind::EModuleIdent,
        ErrorKind::EModuleSemicolon,
    );
    match r {
        Some((attrs, id, span)) => (Some(SModuleItem { attrs, id, span }), s1),
        None => (None, s1),
    }
}

#[verifier::opaque]
pub open spec fn parse_handle(c: Ctx, s: PState) -> (Option<SHandleItem>, PState) {
    let (r, s1) = parse_simple_decl(
        c,
        s,
        "handle",
        ErrorKind::EHandleExpected,
        ErrorKind::EHandleIdent,
        ErrorKind::EHandleSemicolon,
    );
    match r {
        Some((attrs, id, span)) => (Some(SHandleItem { attrs, id, span }), s1),
        None => (None, s1),
    }
}

// ---------------------------------------------------------------------------
// Enums

/// An optional identifier: consumed and read when the next token is one.
#[verifier::opaque]
pub open spec fn opt_ident(c: Ctx, s: PState, e: ErrorKind) -> (Option<Option<SIdent>>, PState) {
    let (t, s1) = peek_or_error(c, s, e);
    match t {
        None => (None, s1),
        Some(t) => if t.kind == TokenKind::Ident {
            let (_, s2) = next(c, s1);
            let (id, s3) = ident(c, s2, t);
            (Some(Some(id)), s3)
        } else {
            (Some(None), s1)
        },
    }
}

pub open spec fn repr_of(cb: Seq<u8>) -> Option<EnumReprType> {
    if cb == "i8".spec_bytes() {
        Some(EnumReprType::I8)
    } else if cb == "i16".spec_bytes() {
        Some(EnumReprType::I16)
    } else if cb == "i32".spec_bytes() {
        Some(EnumReprType::I32)
    } else if cb == "i64".spec_bytes() {
        Some(EnumReprType::I64)
    } else if cb == "u8".spec_bytes() {
        Some(EnumReprType::U8)
    } else if cb == "u16".spec_bytes() {
        Some(EnumReprType::U16)
    } else if cb == "u32".spec_bytes() {
        Some(EnumReprType::U32)
    } else if cb == "u64".spec_bytes() {
        Some(EnumReprType::U64)
    } else {
        None
    }
}

#[verifier::opaque]
pub open spec fn parse_enum_repr(c: Ctx, s: PState) -> (Option<EnumReprType>, PState) {
    let (it, s1) = next_or_error(c, s, ErrorKind::EEnumReprExpected);
    match it {
        None => (None, s1),
        Some(it) => if it.kind != TokenKind::Ident {
            (None, recover_comma(c, err(s1, ErrorKind::EEnumReprExpected, it.span)))
        } else {
            let (tb, s2) = read_bytes(c, s1, it.span);
            match repr_of(tb) {
                Some(r) => (Some(r), s2),
                None => (None, err(s2, ErrorKind::EEnumReprInvalid, it.span)),
            }
        },
    }
}

/// The keyword that names each representation type, letter by letter.
pub open spec fn repr_keyword(r: EnumReprType) -> Seq<char> {
    match r {
        EnumReprType::I8 => seq!['i', '8'],
        EnumReprType::I16 => seq!['i', '1', '6'],
        EnumReprType::I32 => seq!['i', '3', '2'],
        EnumReprType::I64 => seq!['i', '6', '4'],
        EnumReprType::U8 => seq!['u', '8'],
        EnumReprType::U16 => seq!['u', '1', '6'],
        EnumReprType::U32 => seq!['u', '3', '2'],
        EnumReprType::U64 => seq!['u', '6', '4'],
    }
}

/// The representation read for an enum is the one its keyword names: the
/// text of each of `i8` to `u64` gives its own type, and no other text gives
/// any.
pub proof fn law_repr_named_by_keyword(cb: Seq<u8>, r: EnumReprType)
    ensures
        repr_of(cb) == Some(r) <==> cb == vstd::utf8::encode_utf8(repr_keyword(r)),
{
    reveal_strlit("i8");
    reveal_strlit("i16");
    reveal_strlit("i32");
    reveal_strlit("i64");
    reveal_strlit("u8");
    reveal_strlit("u16");
    reveal_strlit("u32");
    reveal_strlit("u64");
    assert("i8"@ =~= repr_keyword(EnumReprType::I8));
    assert("i16"@ =~= repr_keyword(EnumReprType::I16));
    assert("i32"@ =~= repr_keyword(EnumReprType::I32));
    assert("i64"@ =~= repr_keyword(EnumReprType::I64));
    assert("u8"@ =~= repr_keyword(EnumReprType::U8));
    assert("u16"@ =~= repr_keyword(EnumReprType::U16));
    assert("u32"@ =~= repr_keyword(EnumReprType::U32));
    assert("u64"@ =~= repr_keyword(EnumReprType::U64));
    broadcast use vstd::utf8::encode_utf8_decode_utf8;

    let d = vstd::utf8::decode_utf8(cb);
    if cb == vstd::utf8::encode_utf8(repr_keyword(r)) {
        assert(d == repr_keyword(r));
    }
}

/// An enum's representation written as a keyword from `i8` to `u64` is read
/// as the type that keyword names, with no diagnostic.
pub proof fn law_repr_keyword_read(c: Ctx, s: PState, t: Token, r: EnumReprType)
    requires
        c.bytes.len() < u32::MAX,
        token_at(c, s, 0) == Some(t),
        t.kind == TokenKind::Ident,
        span_readable(c.bytes, t.span.start as int, t.span.end as int),
        span_bytes(c, t.span) == vstd::utf8::encode_utf8(repr_keyword(r)),
    ensures
        parse_enum_repr(c, s) == (Some(r), advance(c, s, 1)),
        advance(c, s, 1).errors == s.errors,
{
    reveal(parse_enum_repr);
    assert(advance(c, s, 0) == s);
    assert(advance(c, s, 1) == next(c, s).1);
    lemma_token_read(c, s);
    law_repr_named_by_keyword(span_bytes(c, t.span), r);
}

#[verifier::opaque]
pub open spec fn parse_enum_member_value(c: Ctx, s: PState) -> (Option<(SourceSpan, Seq<char>)>, PState) {
    let (t, s1) = peek_or_error(c, s, ErrorKind::EEnumMemberValueExpected);
    match t {
        None => (None, s1),
        Some(t) => if t.kind != TokenKind::Literal(Literal::Integer) {
            (None, recover_comma(c, err(s1, ErrorKind::EEnumMemberValueExpected, t.span)))
        } else {
            let (_, s2) = next(c, s1);
            let (text, s3) = read(c, s2, t.span);
            (Some((t.span, text)), s3)
        },
    }
}

#[verifier::opaque]
pub open spec fn parse_enum_member(c: Ctx, s: PState) -> (Option<SEnumMember>, PState) {
    let (attrs, s1) = parse_attrs(c, s);
    let (it, s2) = next_or_error(c, s1, ErrorKind::EEnumMemberIdent);
    match it {
        None => (None, s2),
        Some(it) => if it.kind != TokenKind::Ident {
            (None, recover_comma(c, err(s2, ErrorKind::EEnumMemberIdent, it.span)))
        } else {
            let (id, s3) = ident(c, s2, it);
            let (p, s4) = peek(c, s3);
            let (value, s5) = match p {
                Some(p) => if is_punct(p, Punct::Eq) {
                    let (_, s4a) = next(c, s4);
                    parse_enum_member_value(c, s4a)
                } else {
                    (None, s4)
                },
                None => (None, s4),
            };
            let (q, s6) = peek(c, s5);
            let span = match value {
                Some((vspan, _)) => join(it.span, vspan),
                None => it.span,
            };
            let member = SEnumMember { attrs, id, value, span };
            match q {
                Some(q) => if is_punct(q, Punct::Comma) {
                    (Some(member), next(c, s6).1)
                } else if is_punct(q, Punct::RBrace) {
                    (Some(member), s6)
                } else {
                    (None, recover_comma(c, err(s6, ErrorKind::EEnumMemberComma, q.span)))
                },
                None => (Some(member), s6),
            }
        },
    }
}

/// Skips regular comments, up to a doc comment, another token or the end.
pub open spec fn skip_comments(c: Ctx, s: PState) -> PState
    decreases measure(c, s),
{
    if !live(c, s) {
        halt(s)
    } else {
        let (t, s1) = peek(c, s);
        match t {
            None => s1,
            Some(tok) => if tok.kind == TokenKind::Comment {
                let (cb, s2) = read_bytes(c, s1, tok.span);
                if is_doc_comment(cb) {
                    s2
                } else {
                    let (_, s3) = next(c, s2);
                    if adv(c, s, s3) {
                        skip_comments(c, s3)
                    } else {
                        halt(s3)
                    }
                }
            } else {
                s1
            },
        }
    }
}

/// Regular comments are ignored: skipping them reports no error, and unless
/// the input gave out, what comes next is no regular comment.
pub proof fn law_skip_comments(c: Ctx, s: PState)
    ensures
        skip_comments(c, s).errors == s.errors,
        !skip_comments(c, s).halted ==> match peek(c, skip_comments(c, s)).0 {
            Some(t) => t.kind == TokenKind::Comment ==> is_doc_comment(
                read_bytes(c, skip_comments(c, s), t.span).0,
            ),
            None => true,
        },
    decreases measure(c, s),
{
    if live(c, s) {
        lemma_lex_step(c.bytes, c.fi, s.pos);
        let (t, s1) = peek(c, s);
        match t {
            None => {
                if !s1.halted {
                    assert(lex_step(c.bytes, c.fi, s1.pos) == LexStep::End(s1.pos));
                }
            },
            Some(tok) => {
                lemma_peek_again(c, s);
                if tok.kind == TokenKind::Comment {
                    let (cb, s2) = read_bytes(c, s1, tok.span);
                    if !is_doc_comment(cb) {
                        let (_, s3) = next(c, s2);
                        if adv(c, s, s3) {
                            law_skip_comments(c, s3);
                        }
                    }
                }
            },
        }
    }
}

/// The members of an enum, collected after `acc`, until `}`; regular
/// comments before a member or the `}` are skipped.
pub open spec fn enum_members_loop(c: Ctx, s: PState, open: Token, acc: Seq<SEnumMember>) -> (
    Option<Seq<SEnumMember>>,
    PState,
)
    decreases measure(c, s),
{
    if !live(c, s) {
        (None, halt(s))
    } else {
        let s0 = skip_comments(c, s);
        let (t, s1) = peek_or_error(c, s0, ErrorKind::EEnumMemberIdent);
        match t {
            None => (None, s1),
            Some(t) => if is_punct(t, Punct::RBrace) {
                (Some(acc), s1)
            } else if is_punct(t, Punct::RParen) || is_punct(t, Punct::RBracket) {
                (None, err(s1, ErrorKind::EUnmatchedBraces, open.span))
            } else {
                let (m, s2) = parse_enum_member(c, s1);
                let acc2 = match m {
                    Some(m) => acc.push(m),
                    None => acc,
                };
                if adv(c, s, s2) {
                    enum_members_loop(c, s2, open, acc2)
                } else {
                    (None, halt(s2))
                }
            },
        }
    }
}

#[verifier::opaque]
pub open spec fn parse_enum_members(c: Ctx, s: PState) -> (Option<SEnumMembers>, PState) {
    let (open, s1) = next_or_error(c, s, ErrorKind::EEnumLBrace);
    match open {
        None => (None, s1),
        Some(open) => if !is_punct(open, Punct::LBrace) {
            (None, recover_item(c, err(s1, ErrorKind::EEnumLBrace, open.span)))
        } else {
            let (items, s2) = enum_members_loop(c, s1, open, seq![]);
            match items {
                None => (None, s2),
                Some(items) => {
                    let (close, s3) = next_or_error(c, s2, ErrorKind::EEnumRBrace);
                    match close {
                        None => (None, s3),
                        Some(close) => if !is_punct(close, Punct::RBrace) {
                            (None, recover_comma(c, err(s3, ErrorKind::EEnumRBrace, close.span)))
                        } else {
                            (Some(SEnumMembers { items, span: join(open.span, close.span) }), s3)
                        },
                    }
                },
            }
        },
    }
}

/// A member written as a bare identifier `t`: no attributes, no value.
pub open spec fn bare_member(c: Ctx, t: Token) -> SEnumMember {
    SEnumMember {
        attrs: seq![],
        id: SIdent { span: t.span, name: span_text(c.bytes, t.span.start as int, t.span.end as int) },
        value: None,
        span: t.span,
    }
}

/// The token read after `k` tokens is an identifier whose text can be read.
pub open spec fn ident_at(c: Ctx, s: PState, k: nat) -> bool {
    token_at(c, s, k) matches Some(t) && t.kind == TokenKind::Ident && span_readable(
        c.bytes,
        t.span.start as int,
        t.span.end as int,
    )
}

/// Member `i` of a list is an identifier and a comma: tokens `1 + 2i` and `2 + 2i`.
pub open spec fn bare_member_at(c: Ctx, s: PState, i: nat) -> bool {
    ident_at(c, s, 1 + 2 * i) && punct_at(c, s, 2 + 2 * i, Punct::Comma)
}

/// The members `{ A, B, ..., }` that the `n` identifiers at tokens 1, 3, 5, ... name.
pub open spec fn bare_members(c: Ctx, s: PState, n: nat) -> Seq<SEnumMember> {
    Seq::new(n, |k: int| bare_member(c, token_at(c, s, (1 + 2 * k) as nat)->0))
}

/// Looking finds a token: looking again finds it too, and consuming after
/// the look consumes it.
proof fn lemma_peek_found(c: Ctx, q: PState)
    requires
        c.bytes.len() < u32::MAX,
        peek(c, q).0 is Some,
    ensures
        0 <= q.pos <= c.bytes.len(),
        !q.halted,
        live(c, q),
        !peek(c, q).1.halted,
        peek(c, peek(c, q).1) == peek(c, q),
        next(c, peek(c, q).1) == next(c, q),
        peek(c, q).1.errors == q.errors,
        q.pos <= peek(c, q).1.pos,
        peek(c, q).0 == next(c, q).0,
{
    lemma_lex_step(c.bytes, c.fi, q.pos);
    lemma_peek_again(c, q);
}

/// At a state that looks at an identifier, no attribute is read.
proof fn lemma_no_attrs(c: Ctx, q: PState)
    requires
        c.bytes.len() < u32::MAX,
        peek(c, q).0 matches Some(t) && t.kind == TokenKind::Ident,
    ensures
        parse_attrs(c, q) == (Seq::<SAttribute>::empty(), peek(c, q).1),
        skip_comments(c, q) == peek(c, q).1,
{
    lemma_peek_found(c, q);
}

proof fn lemma_bare_members_loop(c: Ctx, s: PState, q: PState, open: Token, k: nat, n: nat)
    requires
        c.bytes.len() < u32::MAX,
        k <= n,
        forall|i: nat| i < n ==> #[trigger] bare_member_at(c, s, i),
        punct_at(c, s, 1 + 2 * n, Punct::RBrace),
        peek(c, q) == peek(c, advance(c, s, 1 + 2 * k)),
        q.errors == s.errors,
    ensures
        enum_members_loop(c, q, open, bare_members(c, s, n).take(k as int)) == (
            Some(bare_members(c, s, n)),
            peek(c, advance(c, s, 1 + 2 * n)).1,
        ),
    decreases n - k,
{
    let a = advance(c, s, 1 + 2 * k);
    if k < n {
        assert(bare_member_at(c, s, k));
    } else {
        assert(punct_at(c, s, 1 + 2 * n, Punct::RBrace));
    }
    lemma_token_read(c, a);
    lemma_peek_found(c, q);
    lemma_advance_errors(c, s, 1 + 2 * k);
    let acc = bare_members(c, s, n).take(k as int);
    if k < n {
        assert(bare_member_at(c, s, k));
        let p = peek(c, q).1;
        lemma_no_attrs(c, q);
        lemma_peek_found(c, p);
        lemma_no_attrs(c, p);
        let a1 = advance(c, s, 2 + 2 * k);
        assert(a1 == next(c, a).1);
        lemma_token_read(c, a1);
        lemma_peek_found(c, a1);
        let a2 = advance(c, s, 3 + 2 * k);
        assert(a2 == next(c, a1).1);
        let t = token_at(c, s, 1 + 2 * k)->0;
        reveal(parse_enum_member);
        assert(parse_enum_member(c, p) == (Some(bare_member(c, t)), a2));
        assert(acc.push(bare_member(c, t)) =~= bare_members(c, s, n).take((k + 1) as int));
        if k + 1 < n {
            assert(bare_member_at(c, s, k + 1));
        } else {
            assert(punct_at(c, s, 1 + 2 * n, Punct::RBrace));
        }
        lemma_bare_members_loop(c, s, a2, open, k + 1, n);
    } else {
        assert(acc =~= bare_members(c, s, n));
        lemma_peek_found(c, peek(c, q).1);
    }
}

/// A member list written as the syntax guide gives it, `{` then identifiers
/// each followed by a comma, then `}`, is read as those members, with no
/// value and no attribute, and no diagnostic.
pub proof fn law_bare_enum_members(c: Ctx, s: PState, n: nat)
    requires
        c.bytes.len() < u32::MAX,
        punct_at(c, s, 0, Punct::LBrace),
        forall|i: nat| i < n ==> #[trigger] bare_member_at(c, s, i),
        punct_at(c, s, 1 + 2 * n, Punct::RBrace),
    ensures
        parse_enum_members(c, s) == (
            Some(
                SEnumMembers {
                    items: bare_members(c, s, n),
                    span: join(token_at(c, s, 0)->0.span, token_at(c, s, 1 + 2 * n)->0.span),
                },
            ),
            advance(c, s, 2 + 2 * n),
        ),
        advance(c, s, 2 + 2 * n).errors == s.errors,
{
    reveal(parse_enum_members);
    assert(advance(c, s, 0) == s);
    lemma_token_read(c, s);
    let s1 = advance(c, s, 1);
    assert(s1 == next(c, s).1);
    if n > 0 {
        assert(bare_member_at(c, s, 0));
    }
    lemma_token_read(c, s1);
    assert(bare_members(c, s, n).take(0) =~= seq![]);
    lemma_bare_members_loop(c, s, s1, token_at(c, s, 0)->0, 0, n);
    let e = advance(c, s, 1 + 2 * n);
    lemma_token_read(c, e);
    assert(advance(c, s, 2 + 2 * n) == next(c, e).1);
    lemma_advance_errors(c, s, 2 + 2 * n);
}

#[verifier::opaque]
pub open spec fn parse_enum(c: Ctx, s: PState) -> (Option<SEnumItem>, PState) {
    let (attrs, s1) = parse_attrs(c, s);
    let (kwt, s2) = next_or_error(c, s1, ErrorKind::EEnumExpected);
    match kwt {
        None => (None, s2),
        Some(kwt) => {
            let (tb, s3) = read_bytes(c, s2, kwt.span);
            if tb != "enum".spec_bytes() {
                (None, recover_item(c, err(s3, ErrorKind::EEnumExpected, kwt.span)))
            } else {
                let (id, s4) = opt_ident(c, s3, ErrorKind::EEnumIdent);
                match id {
                    None => (None, s4),
                    Some(id) => {
                        let (pt, s5) = next_or_error(c, s4, ErrorKind::EEnumReprExpected);
                        match pt {
                            None => (None, s5),
                            Some(pt) => if !is_punct(pt, Punct::Colon) {
                                (None, recover_item(c, err(s5, ErrorKind::EEnumReprExpected, pt.span)))
                            } else {
                                let (repr, s6) = parse_enum_repr(c, s5);
                                match repr {
                                    None => (None, s6),
                                    Some(repr) => {
                                        let (members, s7) = parse_enum_members(c, s6);
                                        match members {
                                            None => (None, s7),
                                            Some(members) => (
                                                Some(
                                                    SEnumItem {
                                                        attrs,
                                                        id,
                                                        repr,
                                                        members,
                                                        span: join(kwt.span, members.span),
                                                    },
                                                ),
                                                s7,
                                            ),
                                        }
                                    },
                                }
                            },
                        }
                    },
                }
            }
        },
    }
}

// ---------------------------------------------------------------------------
// Errors

#[verifier::opaque]
pub open spec fn parse_error_member(c: Ctx, s: PState) -> (Option<SErrorVariant>, PState) {
    let (attrs, s1) = parse_attrs(c, s);
    let (it, s2) = next_or_error(c, s1, ErrorKind::EErrorVariantIdent);
    match it {
        None => (None, s2),
        Some(it) => if it.kind != TokenKind::Ident {
            (None, recover_comma(c, err(s2, ErrorKind::EErrorVariantIdent, it.span)))
        } else {
            let (id, s3) = ident(c, s2, it);
            let (q, s4) = peek(c, s3);
            let v = SErrorVariant { attrs, id, span: it.span };
            match q {
                Some(q) => if is_punct(q, Punct::Comma) {
                    (Some(v), next(c, s4).1)
                } else if is_punct(q, Punct::RBrace) {
                    (Some(v), s4)
                } else {
                    (None, recover_comma(c, err(s4, ErrorKind::EErrorVariantComma, q.span)))
                },
                None => (Some(v), s4),
            }
        },
    }
}

pub open spec fn error_members_loop(c: Ctx, s: PState, open: Token, acc: Seq<SErrorVariant>) -> (
    Option<Seq<SErrorVariant>>,
    PState,
)
    decreases measure(c, s),
{
    if !live(c, s) {
        (None, halt(s))
    } else {
        let s0 = skip_comments(c, s);
        let (t, s1) = peek_or_error(c, s0, ErrorKind::EErrorVariantIdent);
        match t {
            None => (None, s1),
            Some(t) => if is_punct(t, Punct::RBrace) {
                (Some(acc), s1)
            } else if is_punct(t, Punct::RParen) || is_punct(t, Punct::RBracket) {
                (None, err(s1, ErrorKind::EUnmatchedBraces, open.span))
            } else {
                let (m, s2) = parse_error_member(c, s1);
                let acc2 = match m {
                    Some(m) => acc.push(m),
                    None => acc,
                };
                if adv(c, s, s2) {
                    error_members_loop(c, s2, open, acc2)
                } else {
                    (None, halt(s2))
                }
            },
        }
    }
}

#[verifier::opaque]
pub open spec fn parse_error_members(c: Ctx, s: PState) -> (Option<SErrorVariants>, PState) {
    let (open, s1) = next_or_error(c, s, ErrorKind::EErrorLBrace);
    match open {
        None => (None, s1),
        Some(open) => if !is_punct(open, Punct::LBrace) {
            (None, recover_item(c, err(s1, ErrorKind::EErrorLBrace, open.span)))
        } else {
            let (items, s2) = error_members_loop(c, s1, open, seq![]);
            match items {
                None => (None, s2),
                Some(items) => {
                    let (close, s3) = next_or_error(c, s2, ErrorKind::EErrorRBrace);
                    match close {
                        None => (None, s3),
                        Some(close) => if !is_punct(close, Punct::RBrace) {
                            (None, recover_comma(c, err(s3, ErrorKind::EErrorRBrace, close.span)))
                        } else {
                            (Some(SErrorVariants { items, span: join(open.span, close.span) }), s3)
                        },
                    }
                },
            }
        },
    }
}

/// A variant written as a bare identifier `t`, with no attributes.
pub open spec fn bare_variant(c: Ctx, t: Token) -> SErrorVariant {
    SErrorVariant {
        attrs: seq![],
        id: SIdent { span: t.span, name: span_text(c.bytes, t.span.start as int, t.span.end as int) },
        span: t.span,
    }
}

/// The variants `{ A, B, ..., }` that the `n` identifiers at tokens 1, 3, 5, ... name.
pub open spec fn bare_variants(c: Ctx, s: PState, n: nat) -> Seq<SErrorVariant> {
    Seq::new(n, |k: int| bare_variant(c, token_at(c, s, (1 + 2 * k) as nat)->0))
}

proof fn lemma_bare_variants_loop(c: Ctx, s: PState, q: PState, open: Token, k: nat, n: nat)
    requires
        c.bytes.len() < u32::MAX,
        k <= n,
        forall|i: nat| i < n ==> #[trigger] bare_member_at(c, s, i),
        punct_at(c, s, 1 + 2 * n, Punct::RBrace),
        peek(c, q) == peek(c, advance(c, s, 1 + 2 * k)),
        q.errors == s.errors,
    ensures
        error_members_loop(c, q, open, bare_variants(c, s, n).take(k as int)) == (
            Some(bare_variants(c, s, n)),
            peek(c, advance(c, s, 1 + 2 * n)).1,
        ),
    decreases n - k,
{
    let a = advance(c, s, 1 + 2 * k);
    if k < n {
        assert(bare_member_at(c, s, k));
    } else {
        assert(punct_at(c, s, 1 + 2 * n, Punct::RBrace));
    }
    lemma_token_read(c, a);
    lemma_peek_found(c, q);
    lemma_advance_errors(c, s, 1 + 2 * k);
    let acc = bare_variants(c, s, n).take(k as int);
    if k < n {
        let p = peek(c, q).1;
        lemma_no_attrs(c, q);
        lemma_peek_found(c, p);
        lemma_no_attrs(c, p);
        let a1 = advance(c, s, 2 + 2 * k);
        assert(a1 == next(c, a).1);
        lemma_token_read(c, a1);
        lemma_peek_found(c, a1);
        let a2 = advance(c, s, 3 + 2 * k);
        assert(a2 == next(c, a1).1);
        let t = token_at(c, s, 1 + 2 * k)->0;
        reveal(parse_error_member);
        assert(parse_error_member(c, p) == (Some(bare_variant(c, t)), a2));
        assert(acc.push(bare_variant(c, t)) =~= bare_variants(c, s, n).take((k + 1) as int));
        if k + 1 < n {
            assert(bare_member_at(c, s, k + 1));
        }
        lemma_bare_variants_loop(c, s, a2, open, k + 1, n);
    } else {
        assert(acc =~= bare_variants(c, s, n));
        lemma_peek_found(c, peek(c, q).1);
    }
}

/// A variant list written as the syntax guide gives it, `{` then identifiers
/// each followed by a comma, then `}`, is read as those variants, with no
/// attribute, and no diagnostic.
pub proof fn law_bare_error_variants(c: Ctx, s: PState, n: nat)
    requires
        c.bytes.len() < u32::MAX,
        punct_at(c, s, 0, Punct::LBrace),
        forall|i: nat| i < n ==> #[trigger] bare_member_at(c, s, i),
        punct_at(c, s, 1 + 2 * n, Punct::RBrace),
    ensures
        parse_error_members(c, s) == (
            Some(
                SErrorVariants {
                    items: bare_variants(c, s, n),
                    span: join(token_at(c, s, 0)->0.span, token_at(c, s, 1 + 2 * n)->0.span),
                },
            ),
            advance(c, s, 2 + 2 * n),
        ),
        advance(c, s, 2 + 2 * n).errors == s.errors,
{
    reveal(parse_error_members);
    assert(advance(c, s, 0) == s);
    lemma_token_read(c, s);
    let s1 = advance(c, s, 1);
    assert(s1 == next(c, s).1);
    if n > 0 {
        assert(bare_member_at(c, s, 0));
    }
    lemma_token_read(c, s1);
    assert(bare_variants(c, s, n).take(0) =~= seq![]);
    lemma_bare_variants_loop(c, s, s1, token_at(c, s, 0)->0, 0, n);
    let e = advance(c, s, 1 + 2 * n);
    lemma_token_read(c, e);
    assert(advance(c, s, 2 + 2 * n) == next(c, e).1);
    lemma_advance_errors(c, s, 2 + 2 * n);
}

#[verifier::opaque]
pub open spec fn parse_error(c: Ctx, s: PState) -> (Option<SErrorItem>, PState) {
    let (attrs, s1) = parse_attrs(c, s);
    let (kwt, s2) = next_or_error(c, s1, ErrorKind::EErrorExpected);
    match kwt {
        None => (None, s2),
        Some(kwt) => {
            let (tb, s3) = read_bytes(c, s2, kwt.span);
            if tb != "error".spec_bytes() {
                (None, recover_item(c, err(s3, ErrorKind::EErrorExpected, kwt.span)))
            } else {
                let (id, s4) = opt_ident(c, s3, ErrorKind::EErrorIdent);
                match id {
                    None => (None, s4),
                    Some(id) => {
                        let (variants, s5) = parse_error_members(c, s4);
                        match variants {
                            None => (None, s5),
                            Some(variants) => (
                                Some(SErrorItem { attrs, id, variants, span: join(kwt.span, variants.span) }),
                                s5,
                            ),
                        }
                    },
                }
            }
        },
    }
}

// ---------------------------------------------------------------------------
// Types

/// Counts the dimensions of a modifier: one more for each comma, up to the
/// closing bracket, which is left in place.
pub open spec fn dims_loop(c: Ctx, s: PState, ndims: int) -> (Option<int>, PState)
    decreases measure(c, s),
{
    if !live(c, s) {
        (None, halt(s))
    } else {
        let (t, s1) = peek_or_error(c, s, ErrorKind::ETypeModifierExpected);
        match t {
            None => (None, s1),
            Some(t) => if is_punct(t, Punct::Comma) {
                let (_, s2) = next(c, s1);
                if adv(c, s, s2) {
                    dims_loop(c, s2, ndims + 1)
                } else {
                    (None, halt(s2))
                }
            } else if is_punct(t, Punct::RBracket) {
                (Some(ndims), s1)
            } else {
                (None, recover_grouping(c, err(s1, ErrorKind::ETypeModifierExpected, t.span), Punct::RBracket))
            },
        }
    }
}

/// A type modifier: `[N]` (N from 1 to 65535), `[]`, `[,]` or `[,,]`, up to
/// and including the closing bracket.
#[verifier::opaque]
pub open spec fn parse_modifier(c: Ctx, s: PState) -> (Option<TypeModifier>, PState) {
    let (open, s1) = peek(c, s);
    match open {
        None => (None, s1),
        Some(open) => if !is_punct(open, Punct::LBracket) {
            (None, s1)
        } else {
            let (_, s2) = next(c, s1);
            let (t, s3) = peek_or_error(c, s2, ErrorKind::ETypeModifierExpected);
            match t {
                None => (None, s3),
                Some(t) => if t.kind is Literal {
                    let (_, s4) = next(c, s3);
                    if t.kind != TokenKind::Literal(Literal::Integer) {
                        (None, recover_grouping(c, err(s4, ErrorKind::ETypeModifierIntegerExpected, t.span), Punct::RBracket))
                    } else {
                        let (tb, s5) = read_bytes(c, s4, t.span);
                        match spec_parse_in(tb, false, 0, usize::MAX as int) {
                            None => (None, recover_grouping(c, err(s5, ErrorKind::ETypeModifierIntegerExpected, t.span), Punct::RBracket)),
                            Some(n) => if n == 0 || n >= 0x10000 {
                                (None, recover_grouping(c, err(s5, ErrorKind::ETypeModifierOutOfRange, t.span), Punct::RBracket))
                            } else {
                                let (close, s6) = next_or_error(c, s5, ErrorKind::ETypeModifierExpected);
                                match close {
                                    None => (None, s6),
                                    Some(close) => if !is_punct(close, Punct::RBracket) {
                                        (None, recover_grouping(c, err(s6, ErrorKind::ETypeModifierExpected, close.span), Punct::RBracket))
                                    } else {
                                        (Some(TypeModifier::ArrayLen(n as u16)), s6)
                                    },
                                }
                            },
                        }
                    }
                } else {
                    let (nd, s4) = dims_loop(c, s3, 1);
                    match nd {
                        None => (None, s4),
                        Some(nd) => {
                            let (close, s5) = next_or_error(c, s4, ErrorKind::ETypeModifierExpected);
                            match close {
                                None => (None, s5),
                                Some(close) => if !is_punct(close, Punct::RBracket) {
                                    (None, recover_grouping(c, err(s5, ErrorKind::ETypeModifierExpected, close.span), Punct::RBracket))
                                } else if nd == 1 {
                                    (Some(TypeModifier::Array1D), s5)
                                } else if nd == 2 {
                                    (Some(TypeModifier::Array2D), s5)
                                } else if nd == 3 {
                                    (Some(TypeModifier::Array3D), s5)
                                } else {
                                    (None, recover_grouping(c, err(s5, ErrorKind::ETypeModifierTooManyDimensions, open.span), Punct::RBracket))
                                },
                            }
                        },
                    }
                },
            }
        },
    }
}

/// A modifier that is read ends with the `]` that closes it: its last step
/// consumed that bracket.
pub proof fn law_modifier_takes_its_bracket(c: Ctx, s: PState)
    ensures
        parse_modifier(c, s).0 is Some ==> exists|m: PState|
            #![trigger next(c, m)]
            next(c, m).0 matches Some(t) && is_punct(t, Punct::RBracket) && next(c, m).1 == parse_modifier(c, s).1,
{
    reveal(parse_modifier);
}

/// A modifier is a fixed length from 1 to 65535, or one, two or three
/// dimensions; four dimensions are never given.
pub proof fn law_modifier_shapes(c: Ctx, s: PState)
    ensures
        match parse_modifier(c, s).0 {
            Some(TypeModifier::ArrayLen(n)) => n >= 1,
            Some(TypeModifier::Array4D) => false,
            _ => true,
        },
{
    reveal(parse_modifier);
}

/// The state after consuming `k` tokens.
pub open spec fn advance(c: Ctx, s: PState, k: nat) -> PState
    decreases k,
{
    if k == 0 {
        s
    } else {
        next(c, advance(c, s, (k - 1) as nat)).1
    }
}

/// The token read after `k` tokens were consumed.
pub open spec fn token_at(c: Ctx, s: PState, k: nat) -> Option<Token> {
    next(c, advance(c, s, k)).0
}

/// The token read is `p`.
pub open spec fn punct_at(c: Ctx, s: PState, k: nat, p: Punct) -> bool {
    token_at(c, s, k) matches Some(t) && is_punct(t, p)
}

/// Consuming tokens adds no diagnostic.
proof fn lemma_advance_errors(c: Ctx, s: PState, k: nat)
    ensures
        advance(c, s, k).errors == s.errors,
    decreases k,
{
    if k > 0 {
        lemma_advance_errors(c, s, (k - 1) as nat);
    }
}

/// Where a token is read, looking first and then consuming reads it too,
/// and neither step adds a diagnostic.
proof fn lemma_token_read(c: Ctx, s: PState)
    requires
        c.bytes.len() < u32::MAX,
        next(c, s).0 is Some,
    ensures
        0 <= s.pos <= c.bytes.len(),
        !s.halted,
        peek(c, s).0 == next(c, s).0,
        next(c, peek(c, s).1) == next(c, s),
        peek(c, peek(c, s).1) == peek(c, s),
        !peek(c, s).1.halted,
        peek(c, s).1.errors == s.errors,
        next(c, s).1.errors == s.errors,
        (next(c, s).0 matches Some(t) && t.kind is Punct) ==> s.pos < next(c, s).1.pos <= c.bytes.len() + 1,
        s.pos <= peek(c, s).1.pos <= c.bytes.len(),
{
    lemma_lex_step(c.bytes, c.fi, s.pos);
    lemma_peek_again(c, s);
}

/// A fixed-length modifier written as the syntax guide gives it, `[` N `]`
/// with N from 1 to 65535, is read as that length with no diagnostic.
pub proof fn law_fixed_length_modifier(c: Ctx, s: PState, n: Token, v: int)
    requires
        c.bytes.len() < u32::MAX,
        punct_at(c, s, 0, Punct::LBracket),
        token_at(c, s, 1) == Some(n),
        n.kind == TokenKind::Literal(Literal::Integer),
        span_readable(c.bytes, n.span.start as int, n.span.end as int),
        crate::num::spec_parse_int(span_bytes(c, n.span), false) == Some(v),
        1 <= v < 0x10000,
        punct_at(c, s, 2, Punct::RBracket),
    ensures
        parse_modifier(c, s) == (Some(TypeModifier::ArrayLen(v as u16)), advance(c, s, 3)),
        advance(c, s, 3).errors == s.errors,
{
    reveal(parse_modifier);
    let s1 = advance(c, s, 1);
    let s2 = advance(c, s, 2);
    assert(advance(c, s, 0) == s);
    assert(s1 == next(c, s).1);
    assert(s2 == next(c, s1).1);
    lemma_token_read(c, s);
    lemma_token_read(c, s1);
    lemma_token_read(c, s2);
}

proof fn lemma_dims(c: Ctx, s: PState, q: PState, j: nat, d: nat)
    requires
        c.bytes.len() < u32::MAX,
        1 <= j <= d,
        forall|k: nat| j <= k < d ==> punct_at(c, s, k, Punct::Comma),
        punct_at(c, s, d, Punct::RBracket),
        peek(c, q) == peek(c, advance(c, s, j)),
        !q.halted,
        0 <= q.pos,
        q.errors == s.errors,
        advance(c, s, j).errors == s.errors,
    ensures
        dims_loop(c, q, j as int) == (Some(d as int), peek(c, advance(c, s, d)).1),
    decreases d - j,
{
    let a = advance(c, s, j);
    lemma_token_read(c, a);
    if j < d {
        assert(punct_at(c, s, j, Punct::Comma));
        let a1 = advance(c, s, j + 1);
        assert(a1 == next(c, a).1);
        lemma_lex_step(c.bytes, c.fi, q.pos);
        assert(next(c, peek(c, q).1) == next(c, a));
        lemma_dims(c, s, a1, j + 1, d);
    } else {
        assert(peek(c, peek(c, q).1) == peek(c, q)) by {
            lemma_lex_step(c.bytes, c.fi, q.pos);
        }
    }
}

/// The open modifiers written as the syntax guide gives them, `[]`, `[,]`
/// and `[,,]`, are read as one, two and three dimensions with no diagnostic.
pub proof fn law_dimension_modifier(c: Ctx, s: PState, d: nat)
    requires
        c.bytes.len() < u32::MAX,
        1 <= d <= 3,
        punct_at(c, s, 0, Punct::LBracket),
        forall|k: nat| 1 <= k < d ==> punct_at(c, s, k, Punct::Comma),
        punct_at(c, s, d, Punct::RBracket),
    ensures
        parse_modifier(c, s) == (
            Some(
                if d == 1 {
                    TypeModifier::Array1D
                } else if d == 2 {
                    TypeModifier::Array2D
                } else {
                    TypeModifier::Array3D
                },
            ),
            advance(c, s, d + 1),
        ),
        advance(c, s, d + 1).errors == s.errors,
{
    reveal(parse_modifier);
    let s1 = advance(c, s, 1);
    assert(advance(c, s, 0) == s);
    assert(s1 == next(c, s).1);
    if d == 1 {
        assert(punct_at(c, s, 1, Punct::RBracket));
    } else {
        assert(punct_at(c, s, 1, Punct::Comma));
    }
    lemma_token_read(c, s);
    lemma_token_read(c, s1);
    let q = peek(c, s1).1;
    lemma_dims(c, s, q, 1, d);
    let sd = advance(c, s, d);
    lemma_token_read(c, sd);
    lemma_advance_errors(c, s, d + 1);
    assert(advance(c, s, d + 1) == next(c, sd).1);
}

/// `Name` or `Module.Name`.
#[verifier::opaque]
pub open spec fn parse_type_name(c: Ctx, s: PState) -> (Option<STypeName>, PState) {
    let (t1, s1) = next_or_error(c, s, ErrorKind::ETypeNameExpected);
    match t1 {
        None => (None, s1),
        Some(t1) => if t1.kind != TokenKind::Ident {
            (None, recover_comma(c, err(s1, ErrorKind::ETypeNameExpected, t1.span)))
        } else {
            let (dot, s2) = peek(c, s1);
            if dot is Some && is_punct(dot.unwrap(), Punct::Dot) {
                let (_, s3) = next(c, s2);
                let (t2, s4) = next_or_error(c, s3, ErrorKind::ETypeNameExpected);
                match t2 {
                    None => (None, s4),
                    Some(t2) => if t2.kind != TokenKind::Ident {
                        (None, recover_comma(c, err(s4, ErrorKind::ETypeNameExpected, t2.span)))
                    } else {
                        let (module, s5) = ident(c, s4, t1);
                        let (name, s6) = ident(c, s5, t2);
                        (Some(STypeName { module: Some(module), name, span: join(t1.span, t2.span) }), s6)
                    },
                }
            } else {
                let (name, s3) = ident(c, s2, t1);
                (Some(STypeName { module: None, name, span: t1.span }), s3)
            }
        },
    }
}

/// The primitive type that a word names.
pub open spec fn primitive_of(cb: Seq<u8>) -> Option<PrimitiveType> {
    if cb == "i8".spec_bytes() {
        Some(PrimitiveType::I8)
    } else if cb == "i16".spec_bytes() {
        Some(PrimitiveType::I16)
    } else if cb == "i32".spec_bytes() {
        Some(PrimitiveType::I32)
    } else if cb == "i64".spec_bytes() {
        Some(PrimitiveType::I64)
    } else if cb == "isize".spec_bytes() {
        Some(PrimitiveType::Isize)
    } else if cb == "u8".spec_bytes() {
        Some(PrimitiveType::U8)
    } else if cb == "u16".spec_bytes() {
        Some(PrimitiveType::U16)
    } else if cb == "u32".spec_bytes() {
        Some(PrimitiveType::U32)
    } else if cb == "u64".spec_bytes() {
        Some(PrimitiveType::U64)
    } else if cb == "usize".spec_bytes() {
        Some(PrimitiveType::Usize)
    } else if cb == "f32".spec_bytes() {
        Some(PrimitiveType::F32)
    } else if cb == "f64".spec_bytes() {
        Some(PrimitiveType::F64)
    } else if cb == "bool".spec_bytes() {
        Some(PrimitiveType::Bool)
    } else if cb == "char".spec_bytes() {
        Some(PrimitiveType::Char)
    } else {
        None
    }
}

/// No primitive type is spelled like a keyword that starts an inline type.
proof fn lemma_primitive_not_keyword(cb: Seq<u8>)
    requires
        primitive_of(cb) is Some,
    ensures
        cb != "in".spec_bytes(),
        cb != "out".spec_bytes(),
        cb != "struct".spec_bytes(),
        cb != "enum".spec_bytes(),
        cb != "error".spec_bytes(),
        cb != "string".spec_bytes(),
{
    reveal_strlit("in");
    reveal_strlit("out");
    reveal_strlit("struct");
    reveal_strlit("enum");
    reveal_strlit("error");
    reveal_strlit("string");
    reveal_strlit("i8");
    reveal_strlit("i16");
    reveal_strlit("i32");
    reveal_strlit("i64");
    reveal_strlit("isize");
    reveal_strlit("u8");
    reveal_strlit("u16");
    reveal_strlit("u32");
    reveal_strlit("u64");
    reveal_strlit("usize");
    reveal_strlit("f32");
    reveal_strlit("f64");
    reveal_strlit("bool");
    reveal_strlit("char");
    broadcast use vstd::utf8::encode_utf8_decode_utf8;

    let d = vstd::utf8::decode_utf8(cb);
    assert(d.len() >= 2 && d.len() <= 5 && (d[0] == 'i' || d[0] == 'u' || d[0] == 'f' || d[0] == 'b' || d[0] == 'c'));
    assert(d.len() == 2 ==> d[1] != 'n');
    assert(d.len() == 3 ==> d[0] != 'o');
    assert(d.len() == 4 ==> d[0] != 'e');
}

/// The kind of a type whose first token (an identifier, already looked at)
/// reads `cb`: an inline struct (`in`, `out`, `struct`), enum or error,
/// `string`, a primitive or a type name. `s` is the state before the look.
pub open spec fn type_kind(c: Ctx, s: PState, s2: PState, cb: Seq<u8>) -> (Option<STypeDeclKind>, PState)
    decreases measure(c, s), 4int,
{
    if cb == "in".spec_bytes() || cb == "out".spec_bytes() || cb == "struct".spec_bytes() {
        if fwd(c, s, s2) {
            let (st, s3) = parse_struct(c, s2);
            match st {
                Some(st) => (Some(STypeDeclKind::Struct(st)), s3),
                None => (None, s3),
            }
        } else {
            (None, halt(s2))
        }
    } else if cb == "enum".spec_bytes() {
        let (e, s3) = parse_enum(c, s2);
        match e {
            Some(e) => (Some(STypeDeclKind::Enum(e)), s3),
            None => (None, s3),
        }
    } else if cb == "error".spec_bytes() {
        let (e, s3) = parse_error(c, s2);
        match e {
            Some(e) => (Some(STypeDeclKind::Error(e)), s3),
            None => (None, s3),
        }
    } else if cb == "string".spec_bytes() {
        (Some(STypeDeclKind::String), next(c, s2).1)
    } else if primitive_of(cb) is Some {
        (Some(STypeDeclKind::Primitive(primitive_of(cb).unwrap())), next(c, s2).1)
    } else {
        let (n, s3) = parse_type_name(c, s2);
        match n {
            Some(n) => (Some(STypeDeclKind::TypeName(n)), s3),
            None => (None, s3),
        }
    }
}

/// A type: an inline struct, enum or error, `string`, a primitive or a type
/// name, then an optional modifier. The span is that of the first token.
pub open spec fn parse_type(c: Ctx, s: PState) -> (Option<STypeDecl>, PState)
    decreases measure(c, s), 5int,
{
    if !live(c, s) {
        (None, halt(s))
    } else {
        let (t1, s1) = peek_or_error(c, s, ErrorKind::ETypeExpected);
        match t1 {
            None => (None, s1),
            Some(t1) => if t1.kind != TokenKind::Ident {
                (None, recover_comma(c, err(s1, ErrorKind::ETypeExpected, t1.span)))
            } else {
                let (cb, s2) = read_bytes(c, s1, t1.span);
                let (kind, s3) = type_kind(c, s, s2, cb);
                match kind {
                    None => (None, s3),
                    Some(kind) => {
                        let (modifier, s4) = parse_modifier(c, s3);
                        (Some(STypeDecl { kind, modifier, span: t1.span }), s4)
                    },
                }
            },
        }
    }
}

proof fn lemma_advance_shift(c: Ctx, s: PState, k: nat)
    ensures
        advance(c, advance(c, s, 1), k) == advance(c, s, 1 + k),
        token_at(c, advance(c, s, 1), k) == token_at(c, s, 1 + k),
    decreases k,
{
    if k > 0 {
        lemma_advance_shift(c, s, (k - 1) as nat);
        assert(advance(c, s, 1 + k) == next(c, advance(c, s, k)).1);
    } else {
        assert(advance(c, s, 1) == next(c, advance(c, s, 0)).1);
    }
}

/// A fixed-length array of a primitive type written as the syntax guide
/// gives it, such as `u8[16]`, is one complete type, read with no
/// diagnostic.
pub proof fn law_fixed_length_primitive(c: Ctx, s: PState, t: Token, p: PrimitiveType, n: Token, v: int)
    requires
        c.bytes.len() < u32::MAX,
        token_at(c, s, 0) == Some(t),
        t.kind == TokenKind::Ident,
        span_readable(c.bytes, t.span.start as int, t.span.end as int),
        primitive_of(span_bytes(c, t.span)) == Some(p),
        punct_at(c, s, 1, Punct::LBracket),
        token_at(c, s, 2) == Some(n),
        n.kind == TokenKind::Literal(Literal::Integer),
        span_readable(c.bytes, n.span.start as int, n.span.end as int),
        crate::num::spec_parse_int(span_bytes(c, n.span), false) == Some(v),
        1 <= v < 0x10000,
        punct_at(c, s, 3, Punct::RBracket),
    ensures
        parse_type(c, s) == (
            Some(
                STypeDecl {
                    kind: STypeDeclKind::Primitive(p),
                    modifier: Some(TypeModifier::ArrayLen(v as u16)),
                    span: t.span,
                },
            ),
            advance(c, s, 4),
        ),
        advance(c, s, 4).errors == s.errors,
{
    assert(advance(c, s, 0) == s);
    lemma_token_read(c, s);
    lemma_peek_found(c, s);
    let s1 = advance(c, s, 1);
    assert(s1 == next(c, s).1);
    lemma_primitive_not_keyword(span_bytes(c, t.span));
    lemma_advance_shift(c, s, 0);
    lemma_advance_shift(c, s, 1);
    lemma_advance_shift(c, s, 2);
    lemma_advance_shift(c, s, 3);
    law_fixed_length_modifier(c, s1, n, v);
    lemma_advance_errors(c, s, 4);
}

// ---------------------------------------------------------------------------
// Structs

#[verifier::opaque]
pub open spec fn parse_default_value(c: Ctx, s: PState) -> (Option<(SourceSpan, Seq<char>)>, PState) {
    let (t, s1) = next_or_error(c, s, ErrorKind::EStructFieldDefaultValue);
    match t {
        None => (None, s1),
        Some(t) => if !(t.kind is Literal) {
            (None, err(s1, ErrorKind::EStructFieldDefaultValue, t.span))
        } else {
            let (text, s2) = read(c, s1, t.span);
            (Some((t.span, text)), s2)
        },
    }
}

/// `attrs name : Type (= literal)?`
pub open spec fn parse_struct_field(c: Ctx, s: PState) -> (Option<SStructField>, PState)
    decreases measure(c, s), 0int,
{
    if !live(c, s) {
        (None, halt(s))
    } else {
        let (attrs, s1) = parse_attrs(c, s);
        let (it, s2) = next_or_error(c, s1, ErrorKind::EStructFieldIdent);
        match it {
            None => (None, s2),
            Some(it) => if it.kind != TokenKind::Ident {
                (None, recover_comma(c, err(s2, ErrorKind::EStructFieldIdent, it.span)))
            } else {
                let (id, s3) = ident(c, s2, it);
                let (colon, s4) = next_or_error(c, s3, ErrorKind::EStructFieldColon);
                match colon {
                    None => (None, s4),
                    Some(colon) => if !is_punct(colon, Punct::Colon) {
                        (None, recover_comma(c, err(s4, ErrorKind::EStructFieldColon, colon.span)))
                    } else if !adv(c, s, s4) {
                        (None, halt(s4))
                    } else {
                        let (ty, s5) = parse_type(c, s4);
                        match ty {
                            None => (None, s5),
                            Some(ty) => {
                                let (p, s6) = peek(c, s5);
                                match p {
                                    None => (None, s6),
                                    Some(p) => {
                                        let (default, s7) = if is_punct(p, Punct::Eq) {
                                            parse_default_value(c, next(c, s6).1)
                                        } else {
                                            (None, s6)
                                        };
                                        (
                                            Some(
                                                SStructField {
                                                    attrs,
                                                    id,
                                                    ty,
                                                    default,
                                                    span: join(it.span, ty.span),
                                                },
                                            ),
                                            s7,
                                        )
                                    },
                                }
                            },
                        }
                    },
                }
            },
        }
    }
}

/// What follows a field of a list that `close` ends: the end of the input
/// (reported as `EOF`) stops the list (`None`); `close` ends it, left in place
/// (`true`); a comma is consumed, and anything else is reported and skipped
/// up to the next comma (`false`).
#[verifier::opaque]
pub open spec fn field_sep(c: Ctx, s: PState, close: Punct) -> (Option<bool>, PState) {
    let (comma, s1) = peek_or_error(c, s, ErrorKind::EOF);
    match comma {
        None => (None, s1),
        Some(comma) => if is_punct(comma, close) {
            (Some(true), s1)
        } else if is_punct(comma, Punct::Comma) {
            (Some(false), next(c, s1).1)
        } else {
            (Some(false), recover_comma(c, err(s1, ErrorKind::EStructFieldExpected, comma.span)))
        },
    }
}

/// The fields of a field list collected after `acc`, until `close`: the list
/// of a struct (`{ ... }`, where the end of the input at the head of an
/// entry is reported as `EStructFieldExpected`) or of function parameters
/// (`( ... )`, reported as `EOF`). A closing bracket of another kind ends the
/// list with an error.
pub open spec fn fields_loop(
    c: Ctx,
    s: PState,
    open: Token,
    close: Punct,
    head_err: ErrorKind,
    acc: Seq<SStructField>,
) -> (Option<Seq<SStructField>>, PState)
    decreases measure(c, s), 1int,
{
    if !live(c, s) {
        (None, halt(s))
    } else {
        let s0 = skip_comments(c, s);
        let (t, s1) = peek_or_error(c, s0, head_err);
        match t {
            None => (None, s1),
            Some(t) => if is_punct(t, close) {
                (Some(acc), s1)
            } else if is_close(t.kind) {
                (None, err(s1, ErrorKind::EUnmatchedBraces, open.span))
            } else if !fwd(c, s, s1) {
                (None, halt(s1))
            } else {
                let (f, s2) = parse_struct_field(c, s1);
                let acc2 = match f {
                    Some(f) => acc.push(f),
                    None => acc,
                };
                let (sep, s4) = field_sep(c, s2, close);
                match sep {
                    None => (None, s4),
                    Some(true) => (Some(acc2), s4),
                    Some(false) => if adv(c, s, s4) {
                        fields_loop(c, s4, open, close, head_err, acc2)
                    } else {
                        (None, halt(s4))
                    },
                }
            },
        }
    }
}

/// `{ fields }`
pub open spec fn parse_struct_fields(c: Ctx, s: PState) -> (Option<SStructFields>, PState)
    decreases measure(c, s), 2int,
{
    if !live(c, s) {
        (None, halt(s))
    } else {
        let (open, s1) = next_or_error(c, s, ErrorKind::EStructLBrace);
        match open {
            None => (None, s1),
            Some(open) => if !is_punct(open, Punct::LBrace) {
                (None, recover_item(c, err(s1, ErrorKind::EStructLBrace, open.span)))
            } else if !adv(c, s, s1) {
                (None, halt(s1))
            } else {
                let (items, s2) = fields_loop(
                    c,
                    s1,
                    open,
                    Punct::RBrace,
                    ErrorKind::EStructFieldExpected,
                    seq![],
                );
                match items {
                    None => (None, s2),
                    Some(items) => {
                        let (close, s3) = next_or_error(c, s2, ErrorKind::EStructRBrace);
                        match close {
                            None => (None, s3),
                            Some(close) => if !is_punct(close, Punct::RBrace) {
                                (None, recover_comma(c, err(s3, ErrorKind::EStructRBrace, close.span)))
                            } else {
                                (Some(SStructFields { items, span: join(open.span, close.span) }), s3)
                            },
                        }
                    },
                }
            },
        }
    }
}

/// `attrs (in|out)? struct Name? { fields }`. The span runs from the first
/// token after the attributes.
pub open spec fn parse_struct(c: Ctx, s: PState) -> (Option<SStructItem>, PState)
    decreases measure(c, s), 3int,
{
    if !live(c, s) {
        (None, halt(s))
    } else {
        let (attrs, s1) = parse_attrs(c, s);
        let (kio, s2) = peek_or_error(c, s1, ErrorKind::EStructExpected);
        match kio {
            None => (None, s2),
            Some(kio) => {
                let (direction, s3) = if kio.kind == TokenKind::Ident {
                    let (tb, s2a) = read_bytes(c, s2, kio.span);
                    let d = if tb == "in".spec_bytes() {
                        Some(StructDirection::In)
                    } else if tb == "out".spec_bytes() {
                        Some(StructDirection::Out)
                    } else {
                        None
                    };
                    if d is Some {
                        (d, next(c, s2a).1)
                    } else {
                        (d, s2a)
                    }
                } else {
                    (None, s2)
                };
                let (kwt, s4) = next_or_error(c, s3, ErrorKind::EStructExpected);
                match kwt {
                    None => (None, s4),
                    Some(kwt) => {
                        let (tb, s5) = read_bytes(c, s4, kwt.span);
                        if tb != "struct".spec_bytes() {
                            (None, recover_item(c, err(s5, ErrorKind::EStructExpected, kwt.span)))
                        } else {
                            let (id, s6) = opt_ident(c, s5, ErrorKind::EStructIdent);
                            match id {
                                None => (None, s6),
                                Some(id) => if !adv(c, s, s6) {
                                    (None, halt(s6))
                                } else {
                                    let (fields, s7) = parse_struct_fields(c, s6);
                                    match fields {
                                        None => (None, s7),
                                        Some(fields) => (
                                            Some(
                                                SStructItem {
                                                    attrs,
                                                    direction,
                                                    id,
                                                    fields,
                                                    span: join(kio.span, fields.span),
                                                },
                                            ),
                                            s7,
                                        ),
                                    }
                                },
                            }
                        }
                    },
                }
            },
        }
    }
}

// ---------------------------------------------------------------------------
// Functions

/// `( fields )`
#[verifier::opaque]
pub open spec fn parse_fn_params(c: Ctx, s: PState) -> (Option<SStructFields>, PState) {
    if s.halted {
        (None, s)
    } else {
        let (open, s1) = next_or_error(c, s, ErrorKind::EFnLParen);
        match open {
            None => (None, s1),
            Some(open) => if !is_punct(open, Punct::LParen) {
                (None, recover_item(c, err(s1, ErrorKind::EFnLParen, open.span)))
            } else {
                let (items, s2) = fields_loop(c, s1, open, Punct::RParen, ErrorKind::EOF, seq![]);
                match items {
                    None => (None, s2),
                    Some(items) => {
                        let (close, s3) = next_or_error(c, s2, ErrorKind::EFnRParen);
                        match close {
                            None => (None, s3),
                            Some(close) => if !is_punct(close, Punct::RParen) {
                                (None, recover_comma(c, err(s3, ErrorKind::EFnRParen, close.span)))
                            } else {
                                (Some(SStructFields { items, span: join(open.span, close.span) }), s3)
                            },
                        }
                    },
                }
            },
        }
    }
}

/// The return and error types after the parameters: `-> T`, `-> T, E`, `E`
/// or nothing, up to the `;`.
#[verifier::opaque]
pub open spec fn parse_fn_types(c: Ctx, s: PState) -> (Option<(Option<STypeDecl>, Option<STypeDecl>)>, PState) {
    if s.halted {
        (None, s)
    } else {
        let (arrow, s1) = peek_or_error(c, s, ErrorKind::EOF);
        match arrow {
            None => (None, s1),
            Some(arrow) => if is_punct(arrow, Punct::Arrow) {
                let (_, s2) = next(c, s1);
                let (ret, s3) = parse_type(c, s2);
                let (t2, s4) = peek_or_error(c, s3, ErrorKind::EOF);
                match t2 {
                    None => (None, s4),
                    Some(t2) => if is_punct(t2, Punct::Comma) {
                        let (_, s5) = next(c, s4);
                        let (e, s6) = parse_type(c, s5);
                        (Some((ret, e)), s6)
                    } else {
                        (Some((ret, None)), s4)
                    },
                }
            } else if !is_punct(arrow, Punct::Semicolon) {
                let (e, s2) = parse_type(c, s1);
                (Some((None, e)), s2)
            } else {
                (Some((None, None)), s1)
            },
        }
    }
}

#[verifier::opaque]
pub open spec fn parse_fn(c: Ctx, s: PState) -> (Option<SFnItem>, PState) {
    if s.halted {
        (None, s)
    } else {
        let (attrs, s1) = parse_attrs(c, s);
        let (kwt, s2) = next_or_error(c, s1, ErrorKind::EFnExpected);
        match kwt {
            None => (None, s2),
            Some(kwt) => {
                let (tb, s3) = read_bytes(c, s2, kwt.span);
                if tb != "fn".spec_bytes() {
                    (None, recover_item(c, err(s3, ErrorKind::EFnExpected, kwt.span)))
                } else {
                    let (it, s4) = next_or_error(c, s3, ErrorKind::EFnIdent);
                    match it {
                        None => (None, s4),
                        Some(it) => if it.kind != TokenKind::Ident {
                            (None, recover_item(c, err(s4, ErrorKind::EFnIdent, it.span)))
                        } else {
                            let (id, s5) = ident(c, s4, it);
                            let (params, s6) = parse_fn_params(c, s5);
                            match params {
                                None => (None, s6),
                                Some(params) => {
                                    let (tys, s7) = parse_fn_types(c, s6);
                                    match tys {
                                        None => (None, s7),
                                        Some((return_ty, error_ty)) => {
                                            let (semi, s8) = next_or_error(c, s7, ErrorKind::EOF);
                                            match semi {
                                                None => (None, s8),
                                                Some(semi) => if !is_punct(semi, Punct::Semicolon) {
                                                    (None, recover_item(c, err(s8, ErrorKind::EFnSemicolonExpected, semi.span)))
                                                } else {
                                                    (
                                                        Some(
                                                            SFnItem {
                                                                attrs,
                                                                id,
                                                                params,
                                                                return_ty,
                                                                error_ty,
                                                                span: join(kwt.span, semi.span),
                                                            },
                                                        ),
                                                        s8,
                                                    )
                                                },
                                            }
                                        },
                                    }
                                },
                            }
                        },
                    }
                }
            },
        }
    }
}

// ---------------------------------------------------------------------------
// Items and files

/// An item: attributes, then a declaration chosen by its keyword; the item
/// carries the attributes read before the keyword.
#[verifier::opaque]
pub open spec fn parse_item(c: Ctx, s: PState) -> (Option<SItem>, PState) {
    if s.halted {
        (None, s)
    } else {
        let (attrs, s1) = parse_attrs(c, s);
        let (t, s2) = peek(c, s1);
        match t {
            None => (None, s2),
            Some(t) => if t.kind != TokenKind::Ident {
                (None, err(s2, ErrorKind::EItemExpected, t.span))
            } else {
                let (tb, s3) = read_bytes(c, s2, t.span);
                if tb == "module".spec_bytes() {
                    match parse_module(c, s3) {
                        (Some(m), s4) => (Some(SItem::Module(SModuleItem { attrs, ..m })), s4),
                        (None, s4) => (None, s4),
                    }
                } else if tb == "handle".spec_bytes() {
                    match parse_handle(c, s3) {
                        (Some(m), s4) => (Some(SItem::Handle(SHandleItem { attrs, ..m })), s4),
                        (None, s4) => (None, s4),
                    }
                } else if tb == "enum".spec_bytes() {
                    match parse_enum(c, s3) {
                        (Some(m), s4) => (Some(SItem::Enum(SEnumItem { attrs, ..m })), s4),
                        (None, s4) => (None, s4),
                    }
                } else if tb == "error".spec_bytes() {
                    match parse_error(c, s3) {
                        (Some(m), s4) => (Some(SItem::Error(SErrorItem { attrs, ..m })), s4),
                        (None, s4) => (None, s4),
                    }
                } else if tb == "struct".spec_bytes() || tb == "in".spec_bytes() || tb == "out".spec_bytes() {
                    match parse_struct(c, s3) {
                        (Some(m), s4) => (Some(SItem::Struct(SStructItem { attrs, ..m })), s4),
                        (None, s4) => (None, s4),
                    }
                } else if tb == "fn".spec_bytes() {
                    match parse_fn(c, s3) {
                        (Some(m), s4) => (Some(SItem::Function(SFnItem { attrs, ..m })), s4),
                        (None, s4) => (None, s4),
                    }
                } else {
                    (None, err(s3, ErrorKind::EItemExpected, t.span))
                }
            },
        }
    }
}

/// Items collected after `acc` until an item fails to parse.
pub open spec fn items_loop(c: Ctx, s: PState, acc: Seq<SItem>) -> (Seq<SItem>, PState)
    decreases measure(c, s),
{
    if !live(c, s) {
        (acc, halt(s))
    } else {
        let (it, s1) = parse_item(c, s);
        match it {
            None => (acc, s1),
            Some(it) => if adv(c, s, s1) {
                items_loop(c, s1, acc.push(it))
            } else {
                (acc, halt(s1))
            },
        }
    }
}

/// The state at the start of the input.
pub open spec fn start_state() -> PState {
    PState { pos: 0, errors: seq![], halted: false }
}

/// The items of a file and the diagnostics.
pub open spec fn spec_parse(c: Ctx) -> (Seq<SItem>, PState) {
    items_loop(c, start_state(), seq![])
}


} // verus!
