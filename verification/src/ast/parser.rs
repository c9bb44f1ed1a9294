//! The recursive-descent parser with error recovery.
//!
//! Each parsing function returns what the function of the same name in
//! `grammar` gives for the state the parser starts from, and leaves the
//! parser in the state that it gives. The parser carries a `halted` flag:
//! where reading on would panic (the lexer panics, or a span is read off the
//! character boundaries) or make no progress (an empty token is consumed, a
//! loop goes round without consuming input), the flag is raised and the
//! parser stops reading.
use crate::ast::dom::{
    lemma_struct_item_v, AttrCmd, AttrDoc, AttrKind, AttrKv, AttrValue, Attribute, EnumItem, ErrorItem, FnItem,
    HandleItem, Ident, IdlFile, Item, ModuleItem, StructItem,
};
use crate::ast::parser::enumeration::parse_enum;
use crate::ast::parser::error::parse_error;
use crate::ast::parser::function::parse_fn;
use crate::ast::parser::handle::parse_handle;
use crate::ast::parser::module::parse_module;
use crate::ast::parser::structure::parse_struct;
use crate::ast::grammar;
use crate::ast::grammar::{Ctx, PState};
use crate::ast::lexer::{lemma_lex_step, lex_step, occurs_at, LexStep, Lexer, Punct, Token, TokenKind};
use crate::error::{Error, ErrorKind};
use crate::span::{lemma_ascii_boundaries, span_readable, span_text, substr, SourceSpan};
use vstd::prelude::*;
use vstd::string::StringSliceAdditionalSpecFns;
use vstd::utf8::*;

pub mod enumeration;
pub mod error;
pub mod function;
pub mod handle;
pub mod module;
pub mod recover;
pub mod structure;
pub mod ty;

verus! {

broadcast use vstd::utf8::encode_utf8_valid_utf8;

/// `a` and `b` hold the same text.
pub fn str_eq(a: &str, b: &str) -> (r: bool)
    ensures
        r == (a.spec_bytes() == b.spec_bytes()),
        r == (a@ == b@),
{

    let x = a.as_bytes();
    let y = b.as_bytes();
    if x.len() != y.len() {
        assert(x@.len() != y@.len());
        return false;
    }
    let mut i: usize = 0;
    while i < x.len()
        invariant
            x@ == a.spec_bytes(),
            y@ == b.spec_bytes(),
            x@.len() == y@.len(),
            i <= x@.len(),
            forall|j: int| 0 <= j < i ==> x@[j] == y@[j],
        decreases x@.len() - i,
    {
        if x[i] != y[i] {
            assert(x@[i as int] != y@[i as int]);
            return false;
        }
        i += 1;
    }
    assert(x@ =~= y@);
    proof {
        encode_utf8_decode_utf8(a@);
        encode_utf8_decode_utf8(b@);
    }
    true
}

/// A lexer with one token of look-ahead.
pub struct LexState<'a> {
    pub lexer: Lexer<'a>,
    pub token: Option<Token>,
}

impl<'a> LexState<'a> {
    pub closed spec fn bytes(&self) -> Seq<u8> {
        self.lexer.bytes()
    }

    pub closed spec fn file(&self) -> usize {
        self.lexer.file()
    }

    /// The position of the look-ahead token, or the lexer's position.
    pub closed spec fn pos(&self) -> int {
        match self.token {
            Some(t) => t.span.start as int,
            None => self.lexer.pos(),
        }
    }

    pub closed spec fn wf(&self) -> bool {
        &&& self.lexer.wf()
        &&& self.lexer.bytes().len() < u32::MAX
        &&& match self.token {
            Some(t) => {
                &&& lex_step(self.lexer.bytes(), self.lexer.file(), t.span.start as int) == LexStep::Emit(
                    t,
                    self.lexer.pos(),
                )
                &&& t.span.end as int == self.lexer.pos()
            },
            None => true,
        }
    }

    pub proof fn lemma_wf(&self)
        requires
            self.wf(),
        ensures
            0 <= self.pos() <= self.bytes().len() + 1,
            grammar::input_fits(self.bytes()),
            self.token matches Some(t) ==> t.span.index == self.file(),
    {
        self.lexer.lemma_wf();
        match self.token {
            Some(t) => {
                lemma_lex_step(self.lexer.bytes(), self.lexer.file(), t.span.start as int);
            },
            None => {},
        }
    }

    pub fn new(input: &'a str, file_index: usize) -> (r: LexState<'a>)
        requires
            grammar::input_fits(input.spec_bytes()),
        ensures
            r.wf(),
            r.bytes() == input.spec_bytes(),
            r.file() == file_index,
            r.pos() == 0,
    {
        LexState { lexer: Lexer::new(input, file_index), token: None }
    }

    /// The position of the look-ahead token, or the lexer's position.
    pub fn position(&self) -> (r: usize)
        requires
            self.wf(),
        ensures
            r == self.pos(),
    {
        match self.token {
            Some(t) => t.span.start as usize,
            None => self.lexer.position(),
        }
    }

    /// An empty span at the position.
    pub fn unknown(&self) -> (r: SourceSpan)
        requires
            self.wf(),
        ensures
            r == (SourceSpan { index: self.file(), start: self.pos() as u32, end: self.pos() as u32 }),
    {
        proof {
            self.lemma_wf();
        }
        match self.token {
            Some(t) => SourceSpan { index: t.span.index, start: t.span.start, end: t.span.start },
            None => self.lexer.unknown(),
        }
    }

    /// Whether looking at the next token panics.
    pub fn would_panic(&self) -> (r: bool)
        requires
            self.wf(),
        ensures
            r == (lex_step(self.bytes(), self.file(), self.pos()) is Panic),
    {
        match self.token {
            Some(_) => false,
            None => self.lexer.would_panic(),
        }
    }

    pub fn peek(&mut self) -> (r: Option<Token>)
        requires
            old(self).wf(),
            !(lex_step(old(self).bytes(), old(self).file(), old(self).pos()) is Panic),
        ensures
            final(self).wf(),
            final(self).bytes() == old(self).bytes(),
            final(self).file() == old(self).file(),
            match lex_step(old(self).bytes(), old(self).file(), old(self).pos()) {
                LexStep::End(p) => r is None && final(self).pos() == p,
                LexStep::Emit(t, e) => r == Some(t) && final(self).pos() == t.span.start as int
                    && final(self).token == Some(t) && final(self).lexer.pos() == e,
                LexStep::Panic => false,
            },
    {
        if self.token.is_some() {
            return self.token;
        }
        proof {
            lemma_lex_step(self.lexer.bytes(), self.lexer.file(), self.lexer.pos());
        }
        let t = self.lexer.next_token();
        self.token = t;
        t
    }

    pub fn next(&mut self) -> (r: Option<Token>)
        requires
            old(self).wf(),
            !(lex_step(old(self).bytes(), old(self).file(), old(self).pos()) is Panic),
        ensures
            final(self).wf(),
            final(self).bytes() == old(self).bytes(),
            final(self).file() == old(self).file(),
            final(self).token is None,
            match lex_step(old(self).bytes(), old(self).file(), old(self).pos()) {
                LexStep::End(p) => r is None && final(self).pos() == p,
                LexStep::Emit(t, e) => r == Some(t) && final(self).pos() == e,
                LexStep::Panic => false,
            },
    {
        if self.token.is_some() {
            let t = self.token;
            self.token = None;
            return t;
        }
        self.lexer.next_token()
    }

    /// The text of a span that lies on character boundaries.
    pub fn read_str(&self, span: SourceSpan) -> (r: &'a str)
        requires
            self.wf(),
            span_readable(self.bytes(), span.start as int, span.end as int),
        ensures
            r@ == span_text(self.bytes(), span.start as int, span.end as int),
            r.spec_bytes() == self.bytes().subrange(span.start as int, span.end as int),
    {
        self.lexer.read_str(span)
    }
}

/// The parser: the lexer with look-ahead, the diagnostics so far, and
/// whether the parser has halted.
pub struct Parser<'a> {
    pub lex: LexState<'a>,
    pub errors: Vec<Error>,
    pub halted: bool,
}

impl<'a> Parser<'a> {
    pub closed spec fn ctx(&self) -> Ctx {
        Ctx { bytes: self.lex.bytes(), fi: self.lex.file() }
    }

    pub open spec fn st(&self) -> PState {
        PState { pos: self.lex.pos(), errors: self.errors@, halted: self.halted }
    }

    pub closed spec fn wf(&self) -> bool {
        self.lex.wf()
    }

    pub proof fn lemma_wf(&self)
        requires
            self.wf(),
        ensures
            0 <= self.st().pos <= self.ctx().bytes.len() + 1,
            grammar::input_fits(self.ctx().bytes),
            grammar::live(self.ctx(), self.st()) == !self.st().halted,
    {
        self.lex.lemma_wf();
    }

    /// A parser at the start of `input`, with no diagnostics.
    pub fn new(input: &'a str, file_index: usize) -> (r: Parser<'a>)
        requires
            grammar::input_fits(input.spec_bytes()),
        ensures
            r.wf(),
            r.ctx() == (Ctx { bytes: input.spec_bytes(), fi: file_index }),
            r.st() == grammar::start_state(),
    {
        let p = Parser { lex: LexState::new(input, file_index), errors: Vec::new(), halted: false };
        assert(p.errors@ =~= seq![]);
        p
    }

    /// The position in the input.
    pub fn position(&self) -> (r: usize)
        requires
            self.wf(),
        ensures
            r == self.st().pos,
    {
        self.lex.position()
    }

    /// Raises the halted flag.
    pub fn halt(&mut self)
        requires
            old(self).wf(),
        ensures
            final(self).wf(),
            final(self).ctx() == old(self).ctx(),
            final(self).st() == grammar::halt(old(self).st()),
    {
        self.halted = true;
    }

    pub fn peek(&mut self) -> (r: Option<Token>)
        requires
            old(self).wf(),
        ensures
            final(self).wf(),
            final(self).ctx() == old(self).ctx(),
            r matches Some(t) ==> t.span.index == old(self).ctx().fi,
            (r, final(self).st()) == grammar::peek(old(self).ctx(), old(self).st()),
            r matches Some(t) ==> final(self).lex.token == Some(t),
    {
        if self.halted {
            return None;
        }
        if self.lex.would_panic() {
            self.halted = true;
            return None;
        }
        let r = self.lex.peek();
        proof {
            lemma_lex_step(self.lex.bytes(), self.lex.file(), old(self).lex.pos());
        }
        r
    }

    /// Consumes the token that `peek` left in look-ahead; an empty token
    /// halts.
    fn take(&mut self, t: Token)
        requires
            old(self).wf(),
            old(self).lex.token == Some(t),
        ensures
            final(self).wf(),
            final(self).ctx() == old(self).ctx(),
            final(self).st() == grammar::take(old(self).st(), t),
    {
        if t.span.end <= t.span.start {
            self.halted = true;
        } else {
            self.lex.next();
        }
    }

    pub fn next(&mut self) -> (r: Option<Token>)
        requires
            old(self).wf(),
        ensures
            final(self).wf(),
            final(self).ctx() == old(self).ctx(),
            r matches Some(t) ==> t.span.index == old(self).ctx().fi,
            (r, final(self).st()) == grammar::next(old(self).ctx(), old(self).st()),
    {
        let r = self.peek();
        match r {
            None => None,
            Some(t) => {
                self.take(t);
                Some(t)
            },
        }
    }

    pub fn next_if<F: FnOnce(Token) -> bool>(&mut self, f: F, Ghost(pred): Ghost<spec_fn(Token) -> bool>) -> (r: Option<Token>)
        requires
            old(self).wf(),
            forall|t: Token| f.requires((t,)),
            forall|t: Token, b: bool| f.ensures((t,), b) ==> b == pred(t),
        ensures
            final(self).wf(),
            final(self).ctx() == old(self).ctx(),
            r matches Some(t) ==> t.span.index == old(self).ctx().fi,
            (r, final(self).st()) == grammar::next_if(old(self).ctx(), old(self).st(), pred),
    {
        let r = self.peek();
        match r {
            None => None,
            Some(t) => {
                if !f(t) {
                    return None;
                }
                self.take(t);
                Some(t)
            },
        }
    }

    /// An empty span at the position.
    pub fn unknown(&self) -> (r: SourceSpan)
        requires
            self.wf(),
        ensures
            r == grammar::unknown(self.ctx(), self.st()),
    {
        self.lex.unknown()
    }

    pub fn peek_or_error(&mut self, kind: ErrorKind) -> (r: Option<Token>)
        requires
            old(self).wf(),
        ensures
            final(self).wf(),
            final(self).ctx() == old(self).ctx(),
            r matches Some(t) ==> t.span.index == old(self).ctx().fi,
            (r, final(self).st()) == grammar::peek_or_error(old(self).ctx(), old(self).st(), kind),
    {
        let r = self.peek();
        if r.is_none() {
            let span = self.unknown();
            self.errors.push(Error { kind, span });
        }
        r
    }

    pub fn next_or_error(&mut self, kind: ErrorKind) -> (r: Option<Token>)
        requires
            old(self).wf(),
        ensures
            final(self).wf(),
            final(self).ctx() == old(self).ctx(),
            r matches Some(t) ==> t.span.index == old(self).ctx().fi,
            (r, final(self).st()) == grammar::next_or_error(old(self).ctx(), old(self).st(), kind),
    {
        let r = self.next();
        if r.is_none() {
            let span = self.unknown();
            self.errors.push(Error { kind, span });
        }
        r
    }

    /// Reports a diagnostic.
    pub fn error(&mut self, kind: ErrorKind, span: SourceSpan)
        requires
            old(self).wf(),
        ensures
            final(self).wf(),
            final(self).ctx() == old(self).ctx(),
            final(self).st() == grammar::err(old(self).st(), kind, span),
    {
        self.errors.push(Error { kind, span });
    }

    /// The text of a span of the input; a span off the character boundaries
    /// halts and reads nothing.
    pub fn text(&mut self, span: SourceSpan) -> (r: &'a str)
        requires
            old(self).wf(),
        ensures
            final(self).wf(),
            final(self).ctx() == old(self).ctx(),
            r@ == grammar::read(old(self).ctx(), old(self).st(), span).0,
            r.spec_bytes() == grammar::read_bytes(old(self).ctx(), old(self).st(), span).0,
            final(self).st() == grammar::read(old(self).ctx(), old(self).st(), span).1,
    {
        if self.lex.lexer.can_read(span) {
            self.lex.read_str(span)
        } else {
            self.halted = true;
            proof {
                reveal_strlit("");
            }
            ""
        }
    }

    /// An identifier read from a token.
    pub fn ident(&mut self, t: Token) -> (r: Ident)
        requires
            old(self).wf(),
        ensures
            final(self).wf(),
            final(self).ctx() == old(self).ctx(),
            (r.deep_view(), final(self).st()) == grammar::ident(old(self).ctx(), old(self).st(), t),
    {
        let name = self.text(t.span).to_owned();
        Ident { span: t.span, name }
    }
}

/// Pushing onto a vector extends its deep view by the element's.
pub proof fn lemma_push_deep<T: DeepView>(v: Seq<T>, x: T)
    ensures
        Seq::new((v.push(x)).len(), |i: int| v.push(x)[i].deep_view()) == Seq::new(v.len(), |i: int| v[i].deep_view()).push(x.deep_view()),
{
    assert(Seq::new((v.push(x)).len(), |i: int| v.push(x)[i].deep_view()) =~= Seq::new(v.len(), |i: int| v[i].deep_view()).push(x.deep_view()));
}

fn occurs(cb: &[u8], i: usize, pat: &[u8]) -> (r: bool)
    requires
        i <= cb@.len(),
    ensures
        r == occurs_at(cb@, i as int, pat@),
{
    if pat.len() > cb.len() - i {
        return false;
    }
    let mut k: usize = 0;
    while k < pat.len()
        invariant
            cb@.len() <= usize::MAX,
            i + pat@.len() <= cb@.len(),
            k <= pat@.len(),
            forall|j: int| 0 <= j < k ==> cb@[i + j] == pat@[j],
        decreases pat@.len() - k,
    {
        if cb[i + k] != pat[k] {
            assert(cb@.subrange(i as int, i + pat@.len())[k as int] != pat@[k as int]);
            return false;
        }
        k += 1;
    }
    assert(cb@.subrange(i as int, i + pat@.len()) =~= pat@);
    true
}

fn strip_prefixes(cb: &[u8], i: usize, pat: &[u8]) -> (r: usize)
    requires
        i <= cb@.len(),
        pat@.len() > 0,
    ensures
        r == grammar::strip_prefixes(cb@, i as int, pat@),
{
    let mut j = i;
    let len = cb.len();
    proof {
        grammar::lemma_strip_prefixes(cb@, i as int, pat@);
    }
    while occurs(cb, j, pat)
        invariant
            i <= j <= cb@.len(),
            len == cb@.len(),
            pat@.len() > 0,
            grammar::strip_prefixes(cb@, j as int, pat@) == grammar::strip_prefixes(cb@, i as int, pat@),
        decreases cb@.len() - j,
    {
        j += pat.len();
    }
    j
}

fn strip_suffixes(cb: &[u8], lo: usize, j: usize, pat: &[u8]) -> (r: usize)
    requires
        lo <= j <= cb@.len(),
        pat@.len() > 0,
    ensures
        r == grammar::strip_suffixes(cb@, lo as int, j as int, pat@),
{
    let mut k = j;
    while k >= pat.len() && lo <= k - pat.len() && occurs(cb, k - pat.len(), pat)
        invariant
            lo <= k <= j <= cb@.len(),
            pat@.len() > 0,
            grammar::strip_suffixes(cb@, lo as int, k as int, pat@) == grammar::strip_suffixes(
                cb@,
                lo as int,
                j as int,
                pat@,
            ),
        decreases k,
    {
        k -= pat.len();
    }
    k
}

fn ws_byte(c: u8) -> (r: bool)
    ensures
        r == crate::ast::lexer::is_ws(c),
{
    c == 32 || c == 9 || c == 10 || c == 12 || c == 13
}

/// Skips regular comments, up to a doc comment, another token or the end.
pub fn skip_comments(state: &mut Parser)
    requires
        old(state).wf(),
    ensures
        final(state).wf(),
        final(state).ctx() == old(state).ctx(),
        final(state).st() == grammar::skip_comments(old(state).ctx(), old(state).st()),
{
    let ghost c = state.ctx();
    let ghost target = grammar::skip_comments(c, state.st());
    loop
        invariant_except_break
            grammar::skip_comments(c, state.st()) == target,
        invariant
            state.wf(),
            state.ctx() == c,
            c == old(state).ctx(),
            target == grammar::skip_comments(c, old(state).st()),
        ensures
            state.wf(),
            state.ctx() == c,
            state.st() == target,
        decreases grammar::measure(c, state.st()),
    {
        proof {
            state.lemma_wf();
        }
        if state.halted {
            break;
        }
        let start = state.position();
        let token = match state.peek() {
            None => break,
            Some(t) => t,
        };
        if token.kind != TokenKind::Comment {
            break;
        }
        let text = state.text(token.span);
        if doc_comment(text).is_some() {
            break;
        }
        state.next();
        proof {
            state.lemma_wf();
        }
        if !(start < state.position()) {
            state.halt();
            break;
        }
    }
}

/// The doc comment's text, when the comment is one.
fn doc_comment(text: &str) -> (r: Option<String>)
    ensures
        match r {
            Some(d) => grammar::is_doc_comment(text.spec_bytes()) && d@ == span_text(
                text.spec_bytes(),
                grammar::doc_range(text.spec_bytes()).0,
                grammar::doc_range(text.spec_bytes()).1,
            ),
            None => !grammar::is_doc_comment(text.spec_bytes()),
        },
{
    let cb = text.as_bytes();
    let line: [u8; 3] = [47, 47, 47];
    let block: [u8; 3] = [47, 42, 42];
    let end: [u8; 2] = [42, 47];
    assert(line@ == grammar::doc_line());
    assert(block@ == grammar::doc_block());
    assert(end@ == grammar::block_end());
    if !(occurs(cb, 0, line.as_slice()) || occurs(cb, 0, block.as_slice())) {
        return None;
    }
    let a1 = strip_prefixes(cb, 0, line.as_slice());
    proof {
        grammar::lemma_strip_prefixes(cb@, 0, line@);
    }
    let a2 = strip_prefixes(cb, a1, block.as_slice());
    proof {
        grammar::lemma_strip_prefixes(cb@, a1 as int, block@);
    }
    let b1 = strip_suffixes(cb, a2, cb.len(), end.as_slice());
    proof {
        grammar::lemma_strip_suffixes(cb@, a2 as int, cb@.len() as int, end@);
    }
    let mut a3 = a2;
    while a3 < b1 && ws_byte(cb[a3])
        invariant
            a2 <= a3 <= b1 <= cb@.len(),
            grammar::trim_start_ws(cb@, a3 as int, b1 as int) == grammar::trim_start_ws(cb@, a2 as int, b1 as int),
        decreases b1 - a3,
    {
        a3 += 1;
    }
    let mut b3 = b1;
    while a3 < b3 && ws_byte(cb[b3 - 1])
        invariant
            a3 <= b3 <= b1 <= cb@.len(),
            grammar::trim_end_ws(cb@, a3 as int, b3 as int) == grammar::trim_end_ws(cb@, a3 as int, b1 as int),
        decreases b3 - a3,
    {
        b3 -= 1;
    }
    proof {
        grammar::lemma_doc_range(cb@);
        is_char_boundary_start_end_of_seq(cb@);
        if a3 > 0 {
            lemma_ascii_boundaries(cb@, a3 - 1);
        }
        if b3 < cb@.len() {
            lemma_ascii_boundaries(cb@, b3 as int);
        }
    }
    let sub = substr(text, a3, b3);
    Some(sub.to_owned())
}

fn is_item_keyword(text: &str) -> (r: bool)
    ensures
        r == grammar::is_item_keyword(text.spec_bytes()),
{
    str_eq(text, "module") || str_eq(text, "enum") || str_eq(text, "error") || str_eq(text, "struct")
        || str_eq(text, "in") || str_eq(text, "out") || str_eq(text, "fn") || str_eq(text, "handle")
}

fn is_ident_token(t: Token) -> (b: bool)
    ensures
        b == (t.kind == TokenKind::Ident),
{
    t.kind == TokenKind::Ident
}

fn is_eq_token(t: Token) -> (b: bool)
    ensures
        b == (t.kind == TokenKind::Punct(Punct::Eq)),
{
    t.kind == TokenKind::Punct(Punct::Eq)
}

fn is_value_token(t: Token) -> (b: bool)
    ensures
        b == (t.kind is Ident || t.kind is Literal),
{
    match t.kind {
        TokenKind::Ident => true,
        TokenKind::Literal(_) => true,
        _ => false,
    }
}

/// `#name` or `#name = value` after the `#` token `hash`.
pub fn parse_hash_attr(state: &mut Parser, hash: Token) -> (r: Option<Attribute>)
    requires
        old(state).wf(),
        hash.span.index == old(state).ctx().fi,
    ensures
        final(state).wf(),
        final(state).ctx() == old(state).ctx(),
        (r.deep_view(), final(state).st()) == grammar::parse_hash_attr(old(state).ctx(), old(state).st(), hash),
{
    proof {
        reveal(grammar::parse_hash_attr);
    }
    let name = match state.next_if(is_ident_token, Ghost(grammar::pred_ident())) {
        None => return None,
        Some(n) => n,
    };
    let id = state.ident(name);
    let eq = state.next_if(is_eq_token, Ghost(grammar::pred_eq()));
    if eq.is_some() {
        let value = match state.next_if(is_value_token, Ghost(grammar::pred_value())) {
            None => return None,
            Some(v) => v,
        };
        let text = state.text(value.span).to_owned();
        let span = name.span.combine(&value.span);
        let kv = AttrKv { key: id, value: AttrValue { span: value.span, text }, span };
        Some(Attribute { kind: AttrKind::Kv(kv), span: hash.span.combine(&value.span) })
    } else {
        let span = hash.span.combine(&name.span);
        Some(Attribute { kind: AttrKind::Cmd(AttrCmd { name: id }), span })
    }
}

/// Doc comments and `#` attributes before an item, a field or a variant;
/// other comments are skipped.
pub fn parse_attrs(state: &mut Parser) -> (r: Vec<Attribute>)
    requires
        old(state).wf(),
    ensures
        final(state).wf(),
        final(state).ctx() == old(state).ctx(),
        (r.deep_view(), final(state).st()) == grammar::parse_attrs(old(state).ctx(), old(state).st()),
{
    let ghost c = state.ctx();
    let ghost target = grammar::parse_attrs(c, state.st());
    let mut attrs: Vec<Attribute> = Vec::new();
    assert(attrs.deep_view() =~= seq![]);
    loop
        invariant_except_break
            grammar::attrs_loop(c, state.st(), attrs.deep_view()) == target,
        invariant
            state.wf(),
            state.ctx() == c,
            c == old(state).ctx(),
            target == grammar::parse_attrs(c, old(state).st()),
        ensures
            state.wf(),
            state.ctx() == c,
            (attrs.deep_view(), state.st()) == target,
        decreases grammar::measure(c, state.st()),
    {
        proof {
            state.lemma_wf();
        }
        if state.halted {
            break;
        }
        let start = state.position();
        let ghost s = state.st();
        let token = match state.peek() {
            None => break,
            Some(t) => t,
        };
        let ghost old_attrs = attrs@;
        if token.kind == TokenKind::Comment {
            let text = state.text(token.span);
            match doc_comment(text) {
                Some(comment) => {
                    let attr = Attribute {
                        kind: AttrKind::Doc(AttrDoc { span: token.span, comment }),
                        span: token.span,
                    };
                    attrs.push(attr);
                    proof {
                        lemma_push_deep(old_attrs, attr);
                    }
                },
                None => {},
            }
            state.next();
        } else if token.kind == TokenKind::Punct(Punct::Hash) {
            proof {
                grammar::lemma_peek_again(c, s);
            }
            let hash = state.next().unwrap();
            match parse_hash_attr(state, hash) {
                Some(attr) => {
                    attrs.push(attr);
                    proof {
                        lemma_push_deep(old_attrs, attr);
                    }
                },
                None => {},
            }
        } else {
            break;
        }
        proof {
            state.lemma_wf();
        }
        if !(start < state.position()) {
            state.halt();
            break;
        }
    }
    attrs
}

/// The items of a file, and the diagnostics; parsing stops at the first
/// item that fails to parse. The input must be one on which the parser
/// finishes: see `try_parse`.
pub fn parse(input: &str, file_index: usize) -> (r: (IdlFile, Vec<Error>))
    requires
        grammar::input_fits(input.spec_bytes()),
        !grammar::spec_parse(Ctx { bytes: input.spec_bytes(), fi: file_index }).1.halted,
    ensures
        r.0.items.deep_view() == grammar::spec_parse(Ctx { bytes: input.spec_bytes(), fi: file_index }).0,
        r.1@ == grammar::spec_parse(Ctx { bytes: input.spec_bytes(), fi: file_index }).1.errors,
{
    let mut parser = Parser::new(input, file_index);
    let items = parse_items(&mut parser);
    let errors = parser.errors;
    (IdlFile { items }, errors)
}

/// Like `parse`, on any input: nothing where the input is too long for
/// 32-bit offsets, or where the parser would not finish (the lexer panics on
/// an unterminated block comment, a span
/// is read off the character boundaries, or parsing stalls on an empty token).
pub fn try_parse(input: &str, file_index: usize) -> (r: Option<(IdlFile, Vec<Error>)>)
    ensures
        match r {
            Some((file, errors)) => {
                &&& grammar::input_fits(input.spec_bytes())
                &&& !grammar::spec_parse(Ctx { bytes: input.spec_bytes(), fi: file_index }).1.halted
                &&& file.items.deep_view() == grammar::spec_parse(Ctx { bytes: input.spec_bytes(), fi: file_index }).0
                &&& errors@ == grammar::spec_parse(Ctx { bytes: input.spec_bytes(), fi: file_index }).1.errors
            },
            None => !grammar::input_fits(input.spec_bytes())
                || grammar::spec_parse(Ctx { bytes: input.spec_bytes(), fi: file_index }).1.halted,
        },
{
    let n = input.as_bytes().len();
    if n >= 0xFFFF_FFFF || n > isize::MAX as usize {
        return None;
    }
    let mut parser = Parser::new(input, file_index);
    let items = parse_items(&mut parser);
    if parser.halted {
        return None;
    }
    let errors = parser.errors;
    Some((IdlFile { items }, errors))
}

/// Items until one fails to parse.
fn parse_items(state: &mut Parser) -> (r: Vec<Item>)
    requires
        old(state).wf(),
    ensures
        final(state).wf(),
        final(state).ctx() == old(state).ctx(),
        (r.deep_view(), final(state).st()) == grammar::items_loop(old(state).ctx(), old(state).st(), seq![]),
{
    let ghost c = state.ctx();
    let ghost target = grammar::items_loop(c, state.st(), seq![]);
    let mut items: Vec<Item> = Vec::new();
    assert(items.deep_view() =~= seq![]);
    loop
        invariant_except_break
            grammar::items_loop(c, state.st(), items.deep_view()) == target,
        invariant
            state.wf(),
            state.ctx() == c,
            c == old(state).ctx(),
            target == grammar::items_loop(c, old(state).st(), seq![]),
        ensures
            state.wf(),
            state.ctx() == c,
            (items.deep_view(), state.st()) == target,
        decreases grammar::measure(c, state.st()),
    {
        proof {
            state.lemma_wf();
        }
        if state.halted {
            break;
        }
        let start = state.position();
        let item = match parse_item(state) {
            None => break,
            Some(item) => item,
        };
        proof {
            state.lemma_wf();
        }
        if !(start < state.position()) {
            state.halt();
            break;
        }
        let ghost before = items@;
        items.push(item);
        proof {
            lemma_push_deep(before, item);
        }
    }
    items
}

/// An item: its attributes, then a declaration chosen by its keyword.
#[verifier::spinoff_prover]
#[verifier::rlimit(40)]
fn parse_item(state: &mut Parser) -> (r: Option<Item>)
    requires
        old(state).wf(),
    ensures
        final(state).wf(),
        final(state).ctx() == old(state).ctx(),
        (r.deep_view(), final(state).st()) == grammar::parse_item(old(state).ctx(), old(state).st()),
{
    proof {
        reveal(grammar::parse_item);
    }
    if state.halted {
        return None;
    }
    let attrs = parse_attrs(state);

    let token = match state.peek() {
        None => return None,
        Some(t) => t,
    };

    if token.kind != TokenKind::Ident {
        state.error(ErrorKind::EItemExpected, token.span);
        return None;
    }
    let text = state.text(token.span);
    let item = if str_eq(text, "module") {
        match parse_module(state) {
            Some(m) => Item::Module(ModuleItem { attrs, ..m }),
            None => return None,
        }
    } else if str_eq(text, "handle") {
        match parse_handle(state) {
            Some(m) => Item::Handle(HandleItem { attrs, ..m }),
            None => return None,
        }
    } else if str_eq(text, "enum") {
        match parse_enum(state) {
            Some(m) => Item::Enum(EnumItem { attrs, ..m }),
            None => return None,
        }
    } else if str_eq(text, "error") {
        match parse_error(state) {
            Some(m) => Item::Error(ErrorItem { attrs, ..m }),
            None => return None,
        }
    } else if str_eq(text, "struct") || str_eq(text, "in") || str_eq(text, "out") {
        match parse_struct(state) {
            Some(m) => {
                let item = StructItem { attrs, ..m };
                proof {
                    lemma_struct_item_v(m);
                    lemma_struct_item_v(item);
                }
                Item::Struct(item)
            },
            None => return None,
        }
    } else if str_eq(text, "fn") {
        match parse_fn(state) {
            Some(m) => Item::Function(FnItem { attrs, ..m }),
            None => return None,
        }
    } else {
        state.error(ErrorKind::EItemExpected, token.span);
        return None;
    };
    Some(item)
}

} // verus!
