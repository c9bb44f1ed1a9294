//! Error declarations: `error Name { Variant, ... }`.
use crate::ast::dom::{ErrorItem, ErrorVariant, ErrorVariants};
use crate::ast::grammar;
use crate::ast::lexer::{Punct, Token, TokenKind};
use crate::ast::parser::enumeration::parse_opt_ident;
use crate::ast::parser::recover::{recover_comma, recover_item};
use crate::ast::parser::{lemma_push_deep, parse_attrs, str_eq, skip_comments, Parser};
use crate::error::ErrorKind;
use vstd::prelude::*;

verus! {

/// `attrs error Name? { variants }`
pub fn parse_error(state: &mut Parser) -> (r: Option<ErrorItem>)
    requires
        old(state).wf(),
    ensures
        final(state).wf(),
        final(state).ctx() == old(state).ctx(),
        (r.deep_view(), final(state).st()) == grammar::parse_error(old(state).ctx(), old(state).st()),
{
    proof {
        reveal(grammar::parse_error);
    }
    // Attributes
    let attrs = parse_attrs(state);

    // Keyword `error`
    let keyword = match state.next_or_error(ErrorKind::EErrorExpected) {
        None => return None,
        Some(t) => t,
    };
    let text = state.text(keyword.span);
    if !str_eq(text, "error") {
        state.error(ErrorKind::EErrorExpected, keyword.span);
        recover_item(state);
        return None;
    }

    // Optional identifier
    let id = match parse_opt_ident(state, ErrorKind::EErrorIdent) {
        None => return None,
        Some(id) => id,
    };

    // Error values `{ ... }`
    let variants = match parse_error_members(state) {
        None => return None,
        Some(m) => m,
    };

    let span = keyword.span.combine(&variants.span);
    Some(ErrorItem { attrs, id, variants, span })
}

/// `{ variants }`
pub fn parse_error_members(state: &mut Parser) -> (r: Option<ErrorVariants>)
    requires
        old(state).wf(),
    ensures
        final(state).wf(),
        final(state).ctx() == old(state).ctx(),
        (r.deep_view(), final(state).st()) == grammar::parse_error_members(old(state).ctx(), old(state).st()),
        r matches Some(m) ==> m.span.index == old(state).ctx().fi,
{
    proof {
        reveal(grammar::parse_error_members);
    }
    // `{` punct
    let open = match state.next_or_error(ErrorKind::EErrorLBrace) {
        None => return None,
        Some(t) => t,
    };
    if open.kind != TokenKind::Punct(Punct::LBrace) {
        state.error(ErrorKind::EErrorLBrace, open.span);
        recover_item(state);
        return None;
    }

    let members = match variants_loop(state, open) {
        None => return None,
        Some(m) => m,
    };

    // `}` punct
    let close = match state.next_or_error(ErrorKind::EErrorRBrace) {
        None => return None,
        Some(t) => t,
    };
    if close.kind != TokenKind::Punct(Punct::RBrace) {
        state.error(ErrorKind::EErrorRBrace, close.span);
        recover_comma(state);
        return None;
    }

    let span = open.span.combine(&close.span);
    Some(ErrorVariants { items: members, span })
}

/// The variants of an error after its `{`, up to the `}`, which is left in
/// place; a closing bracket of another kind is reported.
fn variants_loop(state: &mut Parser, open: Token) -> (r: Option<Vec<ErrorVariant>>)
    requires
        old(state).wf(),
    ensures
        final(state).wf(),
        final(state).ctx() == old(state).ctx(),
        (r.deep_view(), final(state).st()) == grammar::error_members_loop(old(state).ctx(), old(state).st(), open, seq![]),
{
    let ghost c = state.ctx();
    let ghost target = grammar::error_members_loop(c, state.st(), open, seq![]);
    let mut members: Vec<ErrorVariant> = Vec::new();
    assert(members.deep_view() =~= seq![]);
    loop
        invariant_except_break
            grammar::error_members_loop(c, state.st(), open, members.deep_view()) == target,
        invariant
            state.wf(),
            state.ctx() == c,
            c == old(state).ctx(),
            target == grammar::error_members_loop(c, old(state).st(), open, seq![]),
        ensures
            state.wf(),
            state.ctx() == c,
            target == (Some(members.deep_view()), state.st()),
        decreases grammar::measure(c, state.st()),
    {
        proof {
            state.lemma_wf();
        }
        if state.halted {
            return None;
        }
        let start = state.position();
        skip_comments(state);
        let token = match state.peek_or_error(ErrorKind::EErrorVariantIdent) {
            None => return None,
            Some(t) => t,
        };
        match token.kind {
            TokenKind::Punct(Punct::RBrace) => break,
            TokenKind::Punct(Punct::RParen) | TokenKind::Punct(Punct::RBracket) => {
                state.error(ErrorKind::EUnmatchedBraces, open.span);
                return None;
            },
            _ => {
                let ghost before = members@;
                match parse_error_member(state) {
                    Some(value) => {
                        members.push(value);
                        proof {
                            lemma_push_deep(before, value);
                        }
                    },
                    None => {},
                }
            },
        }
        proof {
            state.lemma_wf();
        }
        if !(start < state.position()) {
            state.halt();
            return None;
        }
    }
    Some(members)
}

/// `attrs Name`, then a `,` or the closing `}`.
pub fn parse_error_member(state: &mut Parser) -> (r: Option<ErrorVariant>)
    requires
        old(state).wf(),
    ensures
        final(state).wf(),
        final(state).ctx() == old(state).ctx(),
        (r.deep_view(), final(state).st()) == grammar::parse_error_member(old(state).ctx(), old(state).st()),
{
    proof {
        reveal(grammar::parse_error_member);
    }
    let attrs = parse_attrs(state);

    // Identifier
    let ident = match state.next_or_error(ErrorKind::EErrorVariantIdent) {
        None => return None,
        Some(t) => t,
    };
    if ident.kind != TokenKind::Ident {
        state.error(ErrorKind::EErrorVariantIdent, ident.span);
        recover_comma(state);
        return None;
    }
    let id = state.ident(ident);

    if let Some(punct) = state.peek() {
        match punct.kind {
            TokenKind::Punct(Punct::Comma) => {
                state.next();
            },
            TokenKind::Punct(Punct::RBrace) => {
                // The `}` is left to the caller.
            },
            _ => {
                state.error(ErrorKind::EErrorVariantComma, punct.span);
                recover_comma(state);
                return None;
            },
        }
    }

    let span = ident.span;
    Some(ErrorVariant { attrs, id, span })
}

} // verus!
