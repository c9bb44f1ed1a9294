//! Enum declarations: `enum Name : repr { Member, Member = 1, ... }`.
use crate::ast::dom::{EnumItem, EnumMember, EnumMemberValue, EnumMembers, EnumReprType, Ident};
use crate::ast::grammar;
use crate::ast::lexer::{Literal, Punct, Token, TokenKind};
use crate::ast::parser::recover::{recover_comma, recover_item};
use crate::ast::parser::{lemma_push_deep, parse_attrs, str_eq, skip_comments, Parser};
use crate::error::ErrorKind;
use vstd::prelude::*;
use vstd::string::StringSliceAdditionalSpecFns;

verus! {

/// An optional identifier: consumed when the next token is one. The end of
/// the input is reported as `e`.
pub fn parse_opt_ident(state: &mut Parser, e: ErrorKind) -> (r: Option<Option<Ident>>)
    requires
        old(state).wf(),
    ensures
        final(state).wf(),
        final(state).ctx() == old(state).ctx(),
        (r.deep_view(), final(state).st()) == grammar::opt_ident(old(state).ctx(), old(state).st(), e),
{
    proof {
        reveal(grammar::opt_ident);
    }
    let ident = match state.peek_or_error(e) {
        None => return None,
        Some(t) => t,
    };
    if ident.kind == TokenKind::Ident {
        state.next();
        let id = state.ident(ident);
        Some(Some(id))
    } else {
        Some(None)
    }
}

fn repr_of(text: &str) -> (r: Option<EnumReprType>)
    ensures
        r == grammar::repr_of(text.spec_bytes()),
{
    if str_eq(text, "i8") {
        Some(EnumReprType::I8)
    } else if str_eq(text, "i16") {
        Some(EnumReprType::I16)
    } else if str_eq(text, "i32") {
        Some(EnumReprType::I32)
    } else if str_eq(text, "i64") {
        Some(EnumReprType::I64)
    } else if str_eq(text, "u8") {
        Some(EnumReprType::U8)
    } else if str_eq(text, "u16") {
        Some(EnumReprType::U16)
    } else if str_eq(text, "u32") {
        Some(EnumReprType::U32)
    } else if str_eq(text, "u64") {
        Some(EnumReprType::U64)
    } else {
        None
    }
}

/// `attrs enum Name? : repr { members }`
pub fn parse_enum(state: &mut Parser) -> (r: Option<EnumItem>)
    requires
        old(state).wf(),
    ensures
        final(state).wf(),
        final(state).ctx() == old(state).ctx(),
        (r.deep_view(), final(state).st()) == grammar::parse_enum(old(state).ctx(), old(state).st()),
{
    proof {
        reveal(grammar::parse_enum);
    }
    // Attributes
    let attrs = parse_attrs(state);

    // Keyword `enum`
    let keyword = match state.next_or_error(ErrorKind::EEnumExpected) {
        None => return None,
        Some(t) => t,
    };
    let text = state.text(keyword.span);
    if !str_eq(text, "enum") {
        state.error(ErrorKind::EEnumExpected, keyword.span);
        recover_item(state);
        return None;
    }

    // Optional identifier
    let id = match parse_opt_ident(state, ErrorKind::EEnumIdent) {
        None => return None,
        Some(id) => id,
    };

    // Punct `:`
    let punct = match state.next_or_error(ErrorKind::EEnumReprExpected) {
        None => return None,
        Some(t) => t,
    };
    if punct.kind != TokenKind::Punct(Punct::Colon) {
        state.error(ErrorKind::EEnumReprExpected, punct.span);
        recover_item(state);
        return None;
    }

    // Repr identifier
    let repr = match parse_enum_repr(state) {
        None => return None,
        Some(r) => r,
    };

    // Enum values `{ ... }`
    let members = match parse_enum_members(state) {
        None => return None,
        Some(m) => m,
    };

    let span = keyword.span.combine(&members.span);
    Some(EnumItem { attrs, id, repr, members, span })
}

/// The representation type after the `:`.
pub fn parse_enum_repr(state: &mut Parser) -> (r: Option<EnumReprType>)
    requires
        old(state).wf(),
    ensures
        final(state).wf(),
        final(state).ctx() == old(state).ctx(),
        (r, final(state).st()) == grammar::parse_enum_repr(old(state).ctx(), old(state).st()),
{
    proof {
        reveal(grammar::parse_enum_repr);
    }
    // Identifier
    let ident = match state.next_or_error(ErrorKind::EEnumReprExpected) {
        None => return None,
        Some(t) => t,
    };
    if ident.kind != TokenKind::Ident {
        state.error(ErrorKind::EEnumReprExpected, ident.span);
        recover_comma(state);
        return None;
    }

    // Must be one of the valid repr types
    let text = state.text(ident.span);
    match repr_of(text) {
        Some(repr) => Some(repr),
        None => {
            state.error(ErrorKind::EEnumReprInvalid, ident.span);
            None
        },
    }
}

/// `{ members }`
pub fn parse_enum_members(state: &mut Parser) -> (r: Option<EnumMembers>)
    requires
        old(state).wf(),
    ensures
        final(state).wf(),
        final(state).ctx() == old(state).ctx(),
        (r.deep_view(), final(state).st()) == grammar::parse_enum_members(old(state).ctx(), old(state).st()),
        r matches Some(m) ==> m.span.index == old(state).ctx().fi,
{
    proof {
        reveal(grammar::parse_enum_members);
    }
    // `{` punct
    let open = match state.next_or_error(ErrorKind::EEnumLBrace) {
        None => return None,
        Some(t) => t,
    };
    if open.kind != TokenKind::Punct(Punct::LBrace) {
        state.error(ErrorKind::EEnumLBrace, open.span);
        recover_item(state);
        return None;
    }

    let members = match members_loop(state, open) {
        None => return None,
        Some(m) => m,
    };

    // `}` punct
    let close = match state.next_or_error(ErrorKind::EEnumRBrace) {
        None => return None,
        Some(t) => t,
    };
    if close.kind != TokenKind::Punct(Punct::RBrace) {
        state.error(ErrorKind::EEnumRBrace, close.span);
        recover_comma(state);
        return None;
    }

    let span = open.span.combine(&close.span);
    Some(EnumMembers { items: members, span })
}

/// The members of an enum after its `{`, up to the `}`, which is left in
/// place; a closing bracket of another kind is reported.
fn members_loop(state: &mut Parser, open: Token) -> (r: Option<Vec<EnumMember>>)
    requires
        old(state).wf(),
    ensures
        final(state).wf(),
        final(state).ctx() == old(state).ctx(),
        (r.deep_view(), final(state).st()) == grammar::enum_members_loop(old(state).ctx(), old(state).st(), open, seq![]),
{
    let ghost c = state.ctx();
    let ghost target = grammar::enum_members_loop(c, state.st(), open, seq![]);
    let mut members: Vec<EnumMember> = Vec::new();
    assert(members.deep_view() =~= seq![]);
    loop
        invariant_except_break
            grammar::enum_members_loop(c, state.st(), open, members.deep_view()) == target,
        invariant
            state.wf(),
            state.ctx() == c,
            c == old(state).ctx(),
            target == grammar::enum_members_loop(c, old(state).st(), open, seq![]),
        ensures
            state.wf(),
            state.ctx() == c,
            target == (Some(members.deep_view()), state.st()),
        decreases grammar::measure(c, state.st()),
    {
        proof {
            state.lemma_wf();
        }
        if state.halted {
            return None;
        }
        let start = state.position();
        skip_comments(state);
        let token = match state.peek_or_error(ErrorKind::EEnumMemberIdent) {
            None => return None,
            Some(t) => t,
        };
        match token.kind {
            TokenKind::Punct(Punct::RBrace) => break,
            TokenKind::Punct(Punct::RParen) | TokenKind::Punct(Punct::RBracket) => {
                state.error(ErrorKind::EUnmatchedBraces, open.span);
                return None;
            },
            _ => {
                let ghost before = members@;
                match parse_enum_member(state) {
                    Some(value) => {
                        members.push(value);
                        proof {
                            lemma_push_deep(before, value);
                        }
                    },
                    None => {},
                }
            },
        }
        proof {
            state.lemma_wf();
        }
        if !(start < state.position()) {
            state.halt();
            return None;
        }
    }
    Some(members)
}

/// `attrs Name`, `attrs Name = value`, then a `,` or the closing `}`.
pub fn parse_enum_member(state: &mut Parser) -> (r: Option<EnumMember>)
    requires
        old(state).wf(),
    ensures
        final(state).wf(),
        final(state).ctx() == old(state).ctx(),
        (r.deep_view(), final(state).st()) == grammar::parse_enum_member(old(state).ctx(), old(state).st()),
{
    proof {
        reveal(grammar::parse_enum_member);
    }
    let attrs = parse_attrs(state);

    // Identifier
    let ident = match state.next_or_error(ErrorKind::EEnumMemberIdent) {
        None => return None,
        Some(t) => t,
    };
    if ident.kind != TokenKind::Ident {
        state.error(ErrorKind::EEnumMemberIdent, ident.span);
        recover_comma(state);
        return None;
    }
    let id = state.ident(ident);

    let mut value = None;
    if let Some(punct) = state.peek() {
        if punct.kind == TokenKind::Punct(Punct::Eq) {
            state.next();
            value = parse_enum_member_value(state);
        }
    }

    if let Some(comma) = state.peek() {
        match comma.kind {
            TokenKind::Punct(Punct::Comma) => {
                state.next();
            },
            TokenKind::Punct(Punct::RBrace) => {
                // The `}` is left to the caller.
            },
            _ => {
                state.error(ErrorKind::EEnumMemberComma, comma.span);
                recover_comma(state);
                return None;
            },
        }
    }

    let span = match &value {
        Some(v) => ident.span.combine(&v.span),
        None => ident.span,
    };

    Some(EnumMember { attrs, id, value, span })
}

/// An integer literal after the `=` of a member.
pub fn parse_enum_member_value(state: &mut Parser) -> (r: Option<EnumMemberValue>)
    requires
        old(state).wf(),
    ensures
        final(state).wf(),
        final(state).ctx() == old(state).ctx(),
        r.is_some() ==> r->0.span.index == old(state).ctx().fi,
        final(state).st() == grammar::parse_enum_member_value(old(state).ctx(), old(state).st()).1,
        match r {
            Some(v) => grammar::parse_enum_member_value(old(state).ctx(), old(state).st()).0 == Some(
                (v.span, v.value@),
            ),
            None => grammar::parse_enum_member_value(old(state).ctx(), old(state).st()).0 is None,
        },
{
    proof {
        reveal(grammar::parse_enum_member_value);
    }
    let token = match state.peek_or_error(ErrorKind::EEnumMemberValueExpected) {
        None => return None,
        Some(t) => t,
    };

    if token.kind != TokenKind::Literal(Literal::Integer) {
        state.error(ErrorKind::EEnumMemberValueExpected, token.span);
        recover_comma(state);
        return None;
    }

    state.next();

    let value = state.text(token.span).to_owned();
    Some(EnumMemberValue { span: token.span, value })
}

} // verus!
