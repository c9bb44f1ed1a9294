//! Parsing only adds diagnostics: a law over the grammar.
use crate::ast::dom::{SAttribute, SEnumMember, SErrorVariant, SItem, SStructField};
use crate::ast::grammar::{
    adv, attrs_loop, closer_of, dims_loop, doc_attr, enum_members_loop, err, error_members_loop,
    field_sep, fields_loop, fwd, halt, ident, is_close, is_doc_comment, is_open, is_punct,
    items_loop, live, measure, next, next_if, next_or_error, opt_ident, parse_attrs,
    parse_default_value, parse_enum, parse_enum_member, parse_enum_member_value,
    parse_enum_members, parse_enum_repr, parse_error, parse_error_member, parse_error_members,
    parse_fn, parse_fn_params, parse_fn_types, parse_handle, parse_hash_attr, parse_item,
    parse_modifier, parse_module, parse_simple_decl, parse_struct, parse_struct_field,
    parse_struct_fields, parse_type, parse_type_name, peek, peek_or_error, read, read_bytes,
    recover_comma, recover_grouping, recover_item, skip_comments, skip_grouping, skip_loop, type_kind, Ctx,
    PState,
};
use crate::ast::lexer::{Punct, Token, TokenKind};
use crate::error::ErrorKind;
use crate::span::SourceSpan;
use vstd::prelude::*;
use vstd::string::StringSliceAdditionalSpecFns;

verus! {

/// `s2` holds the diagnostics of `s`, in the same order, and maybe more after
/// them.
#[verifier::opaque]
pub open spec fn keeps(s: PState, s2: PState) -> bool {
    &&& s.errors.len() <= s2.errors.len()
    &&& forall|i: int| 0 <= i < s.errors.len() ==> #[trigger] s2.errors[i] == s.errors[i]
}

// ---------------------------------------------------------------------------
// The token primitives

broadcast proof fn lemma_keeps_trans(a: PState, b: PState, d: PState)
    requires
        #[trigger] keeps(a, b),
        #[trigger] keeps(b, d),
    ensures
        keeps(a, d),
{
    reveal(keeps);
}

broadcast proof fn lemma_keeps_refl(s: PState)
    ensures
        #[trigger] keeps(s, s),
{
    reveal(keeps);
}

broadcast proof fn lemma_keeps_halt(s: PState)
    ensures
        keeps(s, #[trigger] halt(s)),
{
    reveal(keeps);
}

broadcast proof fn lemma_keeps_peek(c: Ctx, s: PState)
    ensures
        keeps(s, #[trigger] peek(c, s).1),
{
    reveal(keeps);
}

broadcast proof fn lemma_keeps_next(c: Ctx, s: PState)
    ensures
        keeps(s, #[trigger] next(c, s).1),
{
    reveal(keeps);
}

broadcast proof fn lemma_keeps_next_if(c: Ctx, s: PState, pred: spec_fn(Token) -> bool)
    ensures
        keeps(s, #[trigger] next_if(c, s, pred).1),
{
    reveal(keeps);
}

broadcast proof fn lemma_keeps_peek_or_error(c: Ctx, s: PState, kind: ErrorKind)
    ensures
        keeps(s, #[trigger] peek_or_error(c, s, kind).1),
{
    reveal(keeps);
}

broadcast proof fn lemma_keeps_next_or_error(c: Ctx, s: PState, kind: ErrorKind)
    ensures
        keeps(s, #[trigger] next_or_error(c, s, kind).1),
{
    reveal(keeps);
}

broadcast proof fn lemma_keeps_read(c: Ctx, s: PState, span: SourceSpan)
    ensures
        keeps(s, #[trigger] read(c, s, span).1),
{
    reveal(keeps);
}

broadcast proof fn lemma_keeps_read_bytes(c: Ctx, s: PState, span: SourceSpan)
    ensures
        keeps(s, #[trigger] read_bytes(c, s, span).1),
{
    reveal(keeps);
}

broadcast proof fn lemma_keeps_ident(c: Ctx, s: PState, t: Token)
    ensures
        keeps(s, #[trigger] ident(c, s, t).1),
{
    reveal(keeps);
}

broadcast proof fn lemma_keeps_err(s: PState, kind: ErrorKind, span: SourceSpan)
    ensures
        keeps(s, #[trigger] err(s, kind, span)),
{
    reveal(keeps);
}

broadcast group group_keeps_tokens {
    lemma_keeps_trans,
    lemma_keeps_refl,
    lemma_keeps_halt,
    lemma_keeps_peek,
    lemma_keeps_next,
    lemma_keeps_next_if,
    lemma_keeps_peek_or_error,
    lemma_keeps_next_or_error,
    lemma_keeps_read,
    lemma_keeps_read_bytes,
    lemma_keeps_ident,
    lemma_keeps_err,
}

// ---------------------------------------------------------------------------
// Attributes, grouping and recovery

broadcast proof fn lemma_keeps_hash_attr(c: Ctx, s: PState, hash: Token)
    ensures
        keeps(s, #[trigger] parse_hash_attr(c, s, hash).1),
{
    broadcast use group_keeps_tokens;

    reveal(parse_hash_attr);
}

proof fn lemma_keeps_attrs_upto(c: Ctx, n: int)
    ensures
        forall|s: PState, acc: Seq<SAttribute>| measure(c, s) <= n ==> keeps(s, #[trigger] attrs_loop(c, s, acc).1),
    decreases n,
{
    broadcast use group_keeps_tokens, lemma_keeps_hash_attr;

    if n > 0 {
        lemma_keeps_attrs_upto(c, n - 1);
    }
    assert forall|s: PState, acc: Seq<SAttribute>| measure(c, s) <= n implies keeps(
        s,
        #[trigger] attrs_loop(c, s, acc).1,
    ) by {
        if live(c, s) {
            let (t, s1) = peek(c, s);
            if t is Some {
                let tok = t->0;
                if tok.kind == TokenKind::Comment {
                    let (cb, s2) = read_bytes(c, s1, tok.span);
                    let (_, s3) = next(c, s2);
                    let acc2 = if is_doc_comment(cb) { acc.push(doc_attr(tok, cb)) } else { acc };
                    if adv(c, s, s3) {
                        assert(keeps(s3, attrs_loop(c, s3, acc2).1));
                    }
                } else if is_punct(tok, Punct::Hash) {
                    let (_, s2) = next(c, s1);
                    let (a, s3) = parse_hash_attr(c, s2, tok);
                    let acc2 = match a {
                        Some(x) => acc.push(x),
                        None => acc,
                    };
                    if adv(c, s, s3) {
                        assert(keeps(s3, attrs_loop(c, s3, acc2).1));
                    }
                }
            }
        }
    }
}

broadcast proof fn lemma_keeps_attrs_loop(c: Ctx, s: PState, acc: Seq<SAttribute>)
    ensures
        keeps(s, #[trigger] attrs_loop(c, s, acc).1),
{
    lemma_keeps_attrs_upto(c, measure(c, s));
}

broadcast proof fn lemma_keeps_parse_attrs(c: Ctx, s: PState)
    ensures
        keeps(s, #[trigger] parse_attrs(c, s).1),
{
    lemma_keeps_attrs_upto(c, measure(c, s));
}

proof fn lemma_keeps_skips_upto(c: Ctx, n: int)
    ensures
        forall|s: PState| measure(c, s) <= n ==> keeps(s, #[trigger] skip_grouping(c, s).1),
        forall|s: PState, left: Token, right: Punct|
            measure(c, s) <= n ==> keeps(s, #[trigger] skip_loop(c, s, left, right).1),
    decreases n,
{
    broadcast use group_keeps_tokens;

    if n > 0 {
        lemma_keeps_skips_upto(c, n - 1);
    }
    assert forall|s: PState| measure(c, s) <= n implies keeps(s, #[trigger] skip_grouping(c, s).1) by {
        if live(c, s) {
            let (left, s1) = peek(c, s);
            if left is Some && closer_of(left->0.kind) is Some {
                let right = closer_of(left->0.kind)->0;
                let (_, s2) = next(c, s1);
                if adv(c, s, s2) {
                    assert(keeps(s2, skip_loop(c, s2, left->0, right).1));
                }
            }
        }
    }
    assert forall|s: PState, left: Token, right: Punct| measure(c, s) <= n implies keeps(
        s,
        #[trigger] skip_loop(c, s, left, right).1,
    ) by {
        if live(c, s) {
            let (t, s1) = peek(c, s);
            if t is Some && t->0.kind != TokenKind::Punct(right) && is_open(t->0.kind) {
                if fwd(c, s, s1) {
                    let (_, s2) = skip_grouping(c, s1);
                    assert(keeps(s1, s2));
                    if adv(c, s, s2) {
                        assert(keeps(s2, skip_loop(c, s2, left, right).1));
                    }
                }
            } else if t is Some && t->0.kind != TokenKind::Punct(right) && !is_close(t->0.kind) {
                let (_, s2) = next(c, s1);
                if adv(c, s, s2) {
                    assert(keeps(s2, skip_loop(c, s2, left, right).1));
                }
            }
        }
    }
}

broadcast proof fn lemma_keeps_skip_grouping(c: Ctx, s: PState)
    ensures
        keeps(s, #[trigger] skip_grouping(c, s).1),
{
    lemma_keeps_skips_upto(c, measure(c, s));
}

proof fn lemma_keeps_recover_item_upto(c: Ctx, n: int)
    ensures
        forall|s: PState| measure(c, s) <= n ==> keeps(s, #[trigger] recover_item(c, s)),
    decreases n,
{
    broadcast use group_keeps_tokens, lemma_keeps_skip_grouping;

    if n > 0 {
        lemma_keeps_recover_item_upto(c, n - 1);
    }
    assert forall|s: PState| measure(c, s) <= n implies keeps(s, #[trigger] recover_item(c, s)) by {
        if live(c, s) {
            let (t, s1) = peek(c, s);
            if t is Some && !is_punct(t->0, Punct::Semicolon) {
                let tok = t->0;
                if is_open(tok.kind) {
                    let (_, s2) = skip_grouping(c, s1);
                    if adv(c, s, s2) {
                        assert(keeps(s2, recover_item(c, s2)));
                    }
                } else if tok.kind == TokenKind::Ident {
                    let (_, s2) = read_bytes(c, s1, tok.span);
                    let (_, s3) = next(c, s2);
                    if adv(c, s, s3) {
                        assert(keeps(s3, recover_item(c, s3)));
                    }
                } else {
                    let (_, s3) = next(c, s1);
                    if adv(c, s, s3) {
                        assert(keeps(s3, recover_item(c, s3)));
                    }
                }
            }
        }
    }
}

proof fn lemma_keeps_recover_comma_upto(c: Ctx, n: int)
    ensures
        forall|s: PState| measure(c, s) <= n ==> keeps(s, #[trigger] recover_comma(c, s)),
    decreases n,
{
    broadcast use group_keeps_tokens, lemma_keeps_skip_grouping;

    if n > 0 {
        lemma_keeps_recover_comma_upto(c, n - 1);
    }
    assert forall|s: PState| measure(c, s) <= n implies keeps(s, #[trigger] recover_comma(c, s)) by {
        if live(c, s) {
            let (t, s1) = peek(c, s);
            if t is Some && !is_punct(t->0, Punct::Comma) {
                if is_open(t->0.kind) {
                    let (_, s2) = skip_grouping(c, s1);
                    if adv(c, s, s2) {
                        assert(keeps(s2, recover_comma(c, s2)));
                    }
                } else {
                    let (_, s2) = next(c, s1);
                    if adv(c, s, s2) {
                        assert(keeps(s2, recover_comma(c, s2)));
                    }
                }
            }
        }
    }
}

proof fn lemma_keeps_recover_grouping_upto(c: Ctx, n: int)
    ensures
        forall|s: PState, p: Punct| measure(c, s) <= n ==> keeps(s, #[trigger] recover_grouping(c, s, p)),
    decreases n,
{
    broadcast use group_keeps_tokens, lemma_keeps_skip_grouping;

    if n > 0 {
        lemma_keeps_recover_grouping_upto(c, n - 1);
    }
    assert forall|s: PState, p: Punct| measure(c, s) <= n implies keeps(s, #[trigger] recover_grouping(c, s, p)) by {
        if live(c, s) {
            let (t, s1) = peek(c, s);
            if t is Some && t->0.kind != TokenKind::Punct(p) {
                if t->0.kind is Punct && is_open(t->0.kind) {
                    let (_, s2) = skip_grouping(c, s1);
                    if adv(c, s, s2) {
                        assert(keeps(s2, recover_grouping(c, s2, p)));
                    }
                } else {
                    let (_, s2) = next(c, s1);
                    if adv(c, s, s2) {
                        assert(keeps(s2, recover_grouping(c, s2, p)));
                    }
                }
            }
        }
    }
}

broadcast proof fn lemma_keeps_recover_item(c: Ctx, s: PState)
    ensures
        keeps(s, #[trigger] recover_item(c, s)),
{
    lemma_keeps_recover_item_upto(c, measure(c, s));
}

broadcast proof fn lemma_keeps_recover_comma(c: Ctx, s: PState)
    ensures
        keeps(s, #[trigger] recover_comma(c, s)),
{
    lemma_keeps_recover_comma_upto(c, measure(c, s));
}

broadcast proof fn lemma_keeps_recover_grouping(c: Ctx, s: PState, p: Punct)
    ensures
        keeps(s, #[trigger] recover_grouping(c, s, p)),
{
    lemma_keeps_recover_grouping_upto(c, measure(c, s));
}

proof fn lemma_keeps_skip_comments_upto(c: Ctx, n: int)
    ensures
        forall|s: PState| measure(c, s) <= n ==> keeps(s, #[trigger] skip_comments(c, s)),
    decreases n,
{
    broadcast use group_keeps_tokens;

    if n > 0 {
        lemma_keeps_skip_comments_upto(c, n - 1);
    }
    assert forall|s: PState| measure(c, s) <= n implies keeps(s, #[trigger] skip_comments(c, s)) by {
        if live(c, s) {
            let (t, s1) = peek(c, s);
            if t is Some && t->0.kind == TokenKind::Comment {
                let (cb, s2) = read_bytes(c, s1, t->0.span);
                let (_, s3) = next(c, s2);
                if !is_doc_comment(cb) && adv(c, s, s3) {
                    assert(keeps(s3, skip_comments(c, s3)));
                }
            }
        }
    }
}

broadcast proof fn lemma_keeps_skip_comments(c: Ctx, s: PState)
    ensures
        keeps(s, #[trigger] skip_comments(c, s)),
{
    lemma_keeps_skip_comments_upto(c, measure(c, s));
}

broadcast group group_keeps_basics {
    group_keeps_tokens,
    lemma_keeps_skip_comments,
    lemma_keeps_hash_attr,
    lemma_keeps_attrs_loop,
    lemma_keeps_parse_attrs,
    lemma_keeps_skip_grouping,
    lemma_keeps_recover_item,
    lemma_keeps_recover_comma,
    lemma_keeps_recover_grouping,
}

// ---------------------------------------------------------------------------
// Declarations

broadcast proof fn lemma_keeps_simple_decl(
    c: Ctx,
    s: PState,
    kw: &str,
    e_kw: ErrorKind,
    e_ident: ErrorKind,
    e_semi: ErrorKind,
)
    ensures
        keeps(s, #[trigger] parse_simple_decl(c, s, kw, e_kw, e_ident, e_semi).1),
{
    broadcast use group_keeps_basics;

    reveal(parse_simple_decl);
}

broadcast proof fn lemma_keeps_module(c: Ctx, s: PState)
    ensures
        keeps(s, #[trigger] parse_module(c, s).1),
{
    broadcast use lemma_keeps_simple_decl;

    reveal(parse_module);
}

broadcast proof fn lemma_keeps_handle(c: Ctx, s: PState)
    ensures
        keeps(s, #[trigger] parse_handle(c, s).1),
{
    broadcast use lemma_keeps_simple_decl;

    reveal(parse_handle);
}

broadcast proof fn lemma_keeps_opt_ident(c: Ctx, s: PState, e: ErrorKind)
    ensures
        keeps(s, #[trigger] opt_ident(c, s, e).1),
{
    broadcast use group_keeps_basics;

    reveal(opt_ident);
}

broadcast proof fn lemma_keeps_enum_repr(c: Ctx, s: PState)
    ensures
        keeps(s, #[trigger] parse_enum_repr(c, s).1),
{
    broadcast use group_keeps_basics;

    reveal(parse_enum_repr);
}

broadcast proof fn lemma_keeps_member_value(c: Ctx, s: PState)
    ensures
        keeps(s, #[trigger] parse_enum_member_value(c, s).1),
{
    broadcast use group_keeps_basics;

    reveal(parse_enum_member_value);
}

broadcast proof fn lemma_keeps_default_value(c: Ctx, s: PState)
    ensures
        keeps(s, #[trigger] parse_default_value(c, s).1),
{
    broadcast use group_keeps_basics;

    reveal(parse_default_value);
}

broadcast proof fn lemma_keeps_enum_member(c: Ctx, s: PState)
    ensures
        keeps(s, #[trigger] parse_enum_member(c, s).1),
{
    broadcast use group_keeps_basics, lemma_keeps_member_value;

    reveal(parse_enum_member);
}

broadcast proof fn lemma_keeps_error_member(c: Ctx, s: PState)
    ensures
        keeps(s, #[trigger] parse_error_member(c, s).1),
{
    broadcast use group_keeps_basics;

    reveal(parse_error_member);
}

broadcast proof fn lemma_keeps_field_sep(c: Ctx, s: PState, close: Punct)
    ensures
        keeps(s, #[trigger] field_sep(c, s, close).1),
{
    broadcast use group_keeps_basics;

    reveal(field_sep);
}

proof fn lemma_keeps_enum_members_upto(c: Ctx, n: int)
    ensures
        forall|s: PState, open: Token, acc: Seq<SEnumMember>|
            measure(c, s) <= n ==> keeps(s, #[trigger] enum_members_loop(c, s, open, acc).1),
    decreases n,
{
    broadcast use group_keeps_basics, lemma_keeps_enum_member;

    if n > 0 {
        lemma_keeps_enum_members_upto(c, n - 1);
    }
    assert forall|s: PState, open: Token, acc: Seq<SEnumMember>| measure(c, s) <= n implies keeps(
        s,
        #[trigger] enum_members_loop(c, s, open, acc).1,
    ) by {
        if live(c, s) {
            let s0 = skip_comments(c, s);
            let (t, s1) = peek_or_error(c, s0, ErrorKind::EEnumMemberIdent);
            if t is Some {
                let (m, s2) = parse_enum_member(c, s1);
                let acc2 = match m {
                    Some(m) => acc.push(m),
                    None => acc,
                };
                if adv(c, s, s2) {
                    assert(keeps(s2, enum_members_loop(c, s2, open, acc2).1));
                }
            }
        }
    }
}

proof fn lemma_keeps_error_members_upto(c: Ctx, n: int)
    ensures
        forall|s: PState, open: Token, acc: Seq<SErrorVariant>|
            measure(c, s) <= n ==> keeps(s, #[trigger] error_members_loop(c, s, open, acc).1),
    decreases n,
{
    broadcast use group_keeps_basics, lemma_keeps_error_member;

    if n > 0 {
        lemma_keeps_error_members_upto(c, n - 1);
    }
    assert forall|s: PState, open: Token, acc: Seq<SErrorVariant>| measure(c, s) <= n implies keeps(
        s,
        #[trigger] error_members_loop(c, s, open, acc).1,
    ) by {
        if live(c, s) {
            let s0 = skip_comments(c, s);
            let (t, s1) = peek_or_error(c, s0, ErrorKind::EErrorVariantIdent);
            if t is Some {
                let (m, s2) = parse_error_member(c, s1);
                let acc2 = match m {
                    Some(m) => acc.push(m),
                    None => acc,
                };
                if adv(c, s, s2) {
                    assert(keeps(s2, error_members_loop(c, s2, open, acc2).1));
                }
            }
        }
    }
}

proof fn lemma_keeps_dims_upto(c: Ctx, n: int)
    ensures
        forall|s: PState, k: int| measure(c, s) <= n ==> keeps(s, #[trigger] dims_loop(c, s, k).1),
    decreases n,
{
    broadcast use group_keeps_basics;

    if n > 0 {
        lemma_keeps_dims_upto(c, n - 1);
    }
    assert forall|s: PState, k: int| measure(c, s) <= n implies keeps(s, #[trigger] dims_loop(c, s, k).1) by {
        if live(c, s) {
            let (t, s1) = peek_or_error(c, s, ErrorKind::ETypeModifierExpected);
            if t is Some && is_punct(t->0, Punct::Comma) {
                let (_, s2) = next(c, s1);
                if adv(c, s, s2) {
                    assert(keeps(s2, dims_loop(c, s2, k + 1).1));
                }
            }
        }
    }
}

broadcast proof fn lemma_keeps_enum_members_loop(c: Ctx, s: PState, open: Token, acc: Seq<SEnumMember>)
    ensures
        keeps(s, #[trigger] enum_members_loop(c, s, open, acc).1),
{
    lemma_keeps_enum_members_upto(c, measure(c, s));
}

broadcast proof fn lemma_keeps_error_members_loop(c: Ctx, s: PState, open: Token, acc: Seq<SErrorVariant>)
    ensures
        keeps(s, #[trigger] error_members_loop(c, s, open, acc).1),
{
    lemma_keeps_error_members_upto(c, measure(c, s));
}

broadcast proof fn lemma_keeps_dims_loop(c: Ctx, s: PState, k: int)
    ensures
        keeps(s, #[trigger] dims_loop(c, s, k).1),
{
    lemma_keeps_dims_upto(c, measure(c, s));
}

broadcast proof fn lemma_keeps_enum_members(c: Ctx, s: PState)
    ensures
        keeps(s, #[trigger] parse_enum_members(c, s).1),
{
    broadcast use group_keeps_basics, lemma_keeps_enum_members_loop;

    reveal(parse_enum_members);
}

broadcast proof fn lemma_keeps_error_members(c: Ctx, s: PState)
    ensures
        keeps(s, #[trigger] parse_error_members(c, s).1),
{
    broadcast use group_keeps_basics, lemma_keeps_error_members_loop;

    reveal(parse_error_members);
}

broadcast proof fn lemma_keeps_modifier(c: Ctx, s: PState)
    ensures
        keeps(s, #[trigger] parse_modifier(c, s).1),
{
    broadcast use group_keeps_basics, lemma_keeps_dims_loop;

    reveal(parse_modifier);
}

broadcast proof fn lemma_keeps_type_name(c: Ctx, s: PState)
    ensures
        keeps(s, #[trigger] parse_type_name(c, s).1),
{
    broadcast use group_keeps_basics;

    reveal(parse_type_name);
}

broadcast proof fn lemma_keeps_enum(c: Ctx, s: PState)
    ensures
        keeps(s, #[trigger] parse_enum(c, s).1),
{
    broadcast use group_keeps_basics, lemma_keeps_opt_ident, lemma_keeps_enum_repr, lemma_keeps_enum_members;

    reveal(parse_enum);
}

broadcast proof fn lemma_keeps_error(c: Ctx, s: PState)
    ensures
        keeps(s, #[trigger] parse_error(c, s).1),
{
    broadcast use group_keeps_basics, lemma_keeps_opt_ident, lemma_keeps_error_members;

    reveal(parse_error);
}

broadcast group group_keeps_decls {
    group_keeps_basics,
    lemma_keeps_module,
    lemma_keeps_handle,
    lemma_keeps_opt_ident,
    lemma_keeps_default_value,
    lemma_keeps_field_sep,
    lemma_keeps_modifier,
    lemma_keeps_type_name,
    lemma_keeps_enum,
    lemma_keeps_error,
}

// ---------------------------------------------------------------------------
// Types and structs

spec fn field_keeps(c: Ctx, n: int) -> bool {
    forall|s: PState| measure(c, s) <= n ==> keeps(s, #[trigger] parse_struct_field(c, s).1)
}

spec fn fields_loop_keeps(c: Ctx, n: int) -> bool {
    forall|s: PState, open: Token, close: Punct, e: ErrorKind, acc: Seq<SStructField>|
        measure(c, s) <= n ==> keeps(s, #[trigger] fields_loop(c, s, open, close, e, acc).1)
}

spec fn struct_fields_keeps(c: Ctx, n: int) -> bool {
    forall|s: PState| measure(c, s) <= n ==> keeps(s, #[trigger] parse_struct_fields(c, s).1)
}

spec fn struct_keeps(c: Ctx, n: int) -> bool {
    forall|s: PState| measure(c, s) <= n ==> keeps(s, #[trigger] parse_struct(c, s).1)
}

spec fn type_kind_keeps(c: Ctx, n: int) -> bool {
    forall|s: PState, s2: PState, cb: Seq<u8>| measure(c, s) <= n ==> keeps(s2, #[trigger] type_kind(c, s, s2, cb).1)
}

spec fn type_keeps(c: Ctx, n: int) -> bool {
    forall|s: PState| measure(c, s) <= n ==> keeps(s, #[trigger] parse_type(c, s).1)
}

/// The productions that parse types and structs keep the diagnostics from
/// every state of measure at most `n`.
spec fn types_keep(c: Ctx, n: int) -> bool {
    &&& field_keeps(c, n)
    &&& fields_loop_keeps(c, n)
    &&& struct_fields_keeps(c, n)
    &&& struct_keeps(c, n)
    &&& type_kind_keeps(c, n)
    &&& type_keeps(c, n)
}

proof fn lemma_step_field(c: Ctx, n: int)
    requires
        n > 0 ==> types_keep(c, n - 1),
    ensures
        field_keeps(c, n),
{
    broadcast use group_keeps_decls;

    assert forall|s: PState| measure(c, s) <= n implies keeps(s, #[trigger] parse_struct_field(c, s).1) by {
        if live(c, s) {
            let (_, s1) = parse_attrs(c, s);
            let (it, s2) = next_or_error(c, s1, ErrorKind::EStructFieldIdent);
            if it is Some && it->0.kind == TokenKind::Ident {
                let (_, s3) = ident(c, s2, it->0);
                let (colon, s4) = next_or_error(c, s3, ErrorKind::EStructFieldColon);
                if colon is Some && is_punct(colon->0, Punct::Colon) && adv(c, s, s4) {
                    assert(keeps(s4, parse_type(c, s4).1));
                }
            }
        }
    }
}

proof fn lemma_step_fields_loop(c: Ctx, n: int)
    requires
        n > 0 ==> types_keep(c, n - 1),
        field_keeps(c, n),
    ensures
        fields_loop_keeps(c, n),
{
    broadcast use group_keeps_decls;

    assert forall|s: PState, open: Token, close: Punct, e: ErrorKind, acc: Seq<SStructField>|
        measure(c, s) <= n implies keeps(s, #[trigger] fields_loop(c, s, open, close, e, acc).1) by {
        if live(c, s) {
            let s0 = skip_comments(c, s);
            let (t, s1) = peek_or_error(c, s0, e);
            if t is Some && !is_punct(t->0, close) && !is_close(t->0.kind) && fwd(c, s, s1) {
                let (f, s2) = parse_struct_field(c, s1);
                assert(keeps(s1, s2));
                let acc2 = match f {
                    Some(f) => acc.push(f),
                    None => acc,
                };
                let (sep, s4) = field_sep(c, s2, close);
                if sep == Some(false) && adv(c, s, s4) {
                    assert(keeps(s4, fields_loop(c, s4, open, close, e, acc2).1));
                }
            }
        }
    }
}

proof fn lemma_step_struct_fields(c: Ctx, n: int)
    requires
        n > 0 ==> types_keep(c, n - 1),
    ensures
        struct_fields_keeps(c, n),
{
    broadcast use group_keeps_decls;

    assert forall|s: PState| measure(c, s) <= n implies keeps(s, #[trigger] parse_struct_fields(c, s).1) by {
        if live(c, s) {
            let (open, s1) = next_or_error(c, s, ErrorKind::EStructLBrace);
            if open is Some && is_punct(open->0, Punct::LBrace) && adv(c, s, s1) {
                assert(keeps(
                    s1,
                    fields_loop(c, s1, open->0, Punct::RBrace, ErrorKind::EStructFieldExpected, seq![]).1,
                ));
            }
        }
    }
}

proof fn lemma_step_struct(c: Ctx, n: int)
    requires
        n > 0 ==> types_keep(c, n - 1),
    ensures
        struct_keeps(c, n),
{
    broadcast use group_keeps_decls;

    assert forall|s: PState| measure(c, s) <= n implies keeps(s, #[trigger] parse_struct(c, s).1) by {
        if live(c, s) {
            let (_, s1) = parse_attrs(c, s);
            let (kio, s2) = peek_or_error(c, s1, ErrorKind::EStructExpected);
            if kio is Some {
                let kio = kio->0;
                let (_, s3) = if kio.kind == TokenKind::Ident {
                    let (tb, s2a) = read_bytes(c, s2, kio.span);
                    let d = if tb == "in".spec_bytes() {
                        Some(crate::ast::dom::StructDirection::In)
                    } else if tb == "out".spec_bytes() {
                        Some(crate::ast::dom::StructDirection::Out)
                    } else {
                        None
                    };
                    if d is Some {
                        (d, next(c, s2a).1)
                    } else {
                        (d, s2a)
                    }
                } else {
                    (None, s2)
                };
                assert(keeps(s, s3));
                let (kwt, s4) = next_or_error(c, s3, ErrorKind::EStructExpected);
                if kwt is Some {
                    let (_, s5) = read_bytes(c, s4, kwt->0.span);
                    let (id, s6) = opt_ident(c, s5, ErrorKind::EStructIdent);
                    if id is Some && adv(c, s, s6) {
                        assert(keeps(s6, parse_struct_fields(c, s6).1));
                    }
                }
            }
        }
    }
}

proof fn lemma_step_type_kind(c: Ctx, n: int)
    requires
        struct_keeps(c, n),
    ensures
        type_kind_keeps(c, n),
{
    broadcast use group_keeps_decls;

    assert forall|s: PState, s2: PState, cb: Seq<u8>| measure(c, s) <= n implies keeps(
        s2,
        #[trigger] type_kind(c, s, s2, cb).1,
    ) by {
        if fwd(c, s, s2) {
            assert(keeps(s2, parse_struct(c, s2).1));
        }
    }
}

proof fn lemma_step_type(c: Ctx, n: int)
    requires
        type_kind_keeps(c, n),
    ensures
        type_keeps(c, n),
{
    broadcast use group_keeps_decls;

    assert forall|s: PState| measure(c, s) <= n implies keeps(s, #[trigger] parse_type(c, s).1) by {
        if live(c, s) {
            let (t1, s1) = peek_or_error(c, s, ErrorKind::ETypeExpected);
            if t1 is Some && t1->0.kind == TokenKind::Ident {
                let (cb, s2) = read_bytes(c, s1, t1->0.span);
                assert(keeps(s2, type_kind(c, s, s2, cb).1));
            }
        }
    }
}

proof fn lemma_keeps_types_upto(c: Ctx, n: int)
    ensures
        types_keep(c, n),
    decreases n,
{
    if n > 0 {
        lemma_keeps_types_upto(c, n - 1);
    }
    lemma_step_field(c, n);
    lemma_step_fields_loop(c, n);
    lemma_step_struct_fields(c, n);
    lemma_step_struct(c, n);
    lemma_step_type_kind(c, n);
    lemma_step_type(c, n);
}

broadcast proof fn lemma_keeps_parse_type(c: Ctx, s: PState)
    ensures
        keeps(s, #[trigger] parse_type(c, s).1),
{
    lemma_keeps_types_upto(c, measure(c, s));
}

broadcast proof fn lemma_keeps_parse_struct(c: Ctx, s: PState)
    ensures
        keeps(s, #[trigger] parse_struct(c, s).1),
{
    lemma_keeps_types_upto(c, measure(c, s));
}

broadcast proof fn lemma_keeps_parse_struct_fields(c: Ctx, s: PState)
    ensures
        keeps(s, #[trigger] parse_struct_fields(c, s).1),
{
    lemma_keeps_types_upto(c, measure(c, s));
}

broadcast proof fn lemma_keeps_parse_struct_field(c: Ctx, s: PState)
    ensures
        keeps(s, #[trigger] parse_struct_field(c, s).1),
{
    lemma_keeps_types_upto(c, measure(c, s));
}

broadcast proof fn lemma_keeps_fields_loop(
    c: Ctx,
    s: PState,
    open: Token,
    close: Punct,
    e: ErrorKind,
    acc: Seq<SStructField>,
)
    ensures
        keeps(s, #[trigger] fields_loop(c, s, open, close, e, acc).1),
{
    lemma_keeps_types_upto(c, measure(c, s));
}

// ---------------------------------------------------------------------------
// Functions, items and files

broadcast proof fn lemma_keeps_fn_params(c: Ctx, s: PState)
    ensures
        keeps(s, #[trigger] parse_fn_params(c, s).1),
{
    broadcast use group_keeps_basics, lemma_keeps_fields_loop;

    reveal(parse_fn_params);
}

broadcast proof fn lemma_keeps_fn_types(c: Ctx, s: PState)
    ensures
        keeps(s, #[trigger] parse_fn_types(c, s).1),
{
    broadcast use group_keeps_basics, lemma_keeps_parse_type;

    reveal(parse_fn_types);
}

broadcast proof fn lemma_keeps_fn(c: Ctx, s: PState)
    ensures
        keeps(s, #[trigger] parse_fn(c, s).1),
{
    broadcast use group_keeps_basics, lemma_keeps_fn_params, lemma_keeps_fn_types;

    reveal(parse_fn);
}

broadcast proof fn lemma_keeps_item(c: Ctx, s: PState)
    ensures
        keeps(s, #[trigger] parse_item(c, s).1),
{
    broadcast use group_keeps_decls, lemma_keeps_parse_struct, lemma_keeps_fn;

    reveal(parse_item);
}

proof fn lemma_keeps_items_upto(c: Ctx, n: int)
    ensures
        forall|s: PState, acc: Seq<SItem>| measure(c, s) <= n ==> keeps(s, #[trigger] items_loop(c, s, acc).1),
    decreases n,
{
    broadcast use group_keeps_tokens, lemma_keeps_item;

    if n > 0 {
        lemma_keeps_items_upto(c, n - 1);
    }
    assert forall|s: PState, acc: Seq<SItem>| measure(c, s) <= n implies keeps(
        s,
        #[trigger] items_loop(c, s, acc).1,
    ) by {
        if live(c, s) {
            let (it, s1) = parse_item(c, s);
            if it is Some && adv(c, s, s1) {
                assert(keeps(s1, items_loop(c, s1, acc.push(it->0)).1));
            }
        }
    }
}

/// Parsing only adds diagnostics: every production, from any state, ends in
/// a state that holds the diagnostics it started with, in the same order,
/// followed by those it reports.
pub proof fn law_diagnostics_kept(c: Ctx, s: PState, p: Punct, acc: Seq<SItem>)
    ensures
        keeps(s, parse_attrs(c, s).1),
        keeps(s, recover_item(c, s)),
        keeps(s, recover_comma(c, s)),
        keeps(s, recover_grouping(c, s, p)),
        keeps(s, parse_module(c, s).1),
        keeps(s, parse_handle(c, s).1),
        keeps(s, parse_enum(c, s).1),
        keeps(s, parse_enum_repr(c, s).1),
        keeps(s, parse_enum_members(c, s).1),
        keeps(s, parse_enum_member(c, s).1),
        keeps(s, parse_enum_member_value(c, s).1),
        keeps(s, parse_error(c, s).1),
        keeps(s, parse_error_members(c, s).1),
        keeps(s, parse_error_member(c, s).1),
        keeps(s, parse_type(c, s).1),
        keeps(s, parse_type_name(c, s).1),
        keeps(s, parse_modifier(c, s).1),
        keeps(s, parse_struct(c, s).1),
        keeps(s, parse_struct_fields(c, s).1),
        keeps(s, parse_struct_field(c, s).1),
        keeps(s, parse_default_value(c, s).1),
        keeps(s, parse_fn(c, s).1),
        keeps(s, parse_item(c, s).1),
        keeps(s, items_loop(c, s, acc).1),
{
    broadcast use group_keeps_decls, lemma_keeps_enum_repr, lemma_keeps_enum_members, lemma_keeps_enum_member,
        lemma_keeps_member_value, lemma_keeps_error_members, lemma_keeps_error_member, lemma_keeps_parse_type,
        lemma_keeps_parse_struct, lemma_keeps_parse_struct_fields, lemma_keeps_parse_struct_field, lemma_keeps_fn,
        lemma_keeps_item;

    lemma_keeps_items_upto(c, measure(c, s));
}

} // verus!
