//! Module declarations: `module Name;`.
use crate::ast::dom::{Attribute, Ident, ModuleItem};
use crate::ast::grammar;
use crate::ast::lexer::{Punct, TokenKind};
use crate::ast::parser::recover::recover_item;
use crate::ast::parser::{parse_attrs, str_eq, Parser};
use crate::error::ErrorKind;
use crate::span::SourceSpan;
use vstd::prelude::*;

verus! {

/// `attrs kw Ident ;`: the attributes, the identifier and the span from the
/// keyword to the semicolon. Each of the three tokens has its own error kind.
pub fn parse_decl(
    state: &mut Parser,
    kw: &str,
    e_kw: ErrorKind,
    e_ident: ErrorKind,
    e_semi: ErrorKind,
) -> (r: Option<(Vec<Attribute>, Ident, SourceSpan)>)
    requires
        old(state).wf(),
    ensures
        final(state).wf(),
        final(state).ctx() == old(state).ctx(),
        final(state).st() == grammar::parse_simple_decl(old(state).ctx(), old(state).st(), kw, e_kw, e_ident, e_semi).1,
        match r {
            Some((attrs, id, span)) => grammar::parse_simple_decl(
                old(state).ctx(),
                old(state).st(),
                kw,
                e_kw,
                e_ident,
                e_semi,
            ).0 == Some((attrs.deep_view(), id.deep_view(), span)),
            None => grammar::parse_simple_decl(old(state).ctx(), old(state).st(), kw, e_kw, e_ident, e_semi).0 is None,
        },
{
    proof {
        reveal(grammar::parse_simple_decl);
    }
    if state.halted {
        return None;
    }
    // Attributes
    let attrs = parse_attrs(state);

    // The keyword
    let keyword = match state.next_or_error(e_kw) {
        None => return None,
        Some(t) => t,
    };
    let text = state.text(keyword.span);
    if !str_eq(text, kw) {
        state.error(e_kw, keyword.span);
        recover_item(state);
        return None;
    }

    // Identifier
    let ident = match state.next_or_error(e_ident) {
        None => return None,
        Some(t) => t,
    };
    if ident.kind != TokenKind::Ident {
        state.error(e_ident, ident.span);
        recover_item(state);
        return None;
    }
    let id = state.ident(ident);

    // `;`
    let punct = match state.next_or_error(e_semi) {
        None => return None,
        Some(t) => t,
    };
    if punct.kind != TokenKind::Punct(Punct::Semicolon) {
        state.error(e_semi, punct.span);
        recover_item(state);
        return None;
    }

    let span = keyword.span.combine(&punct.span);
    Some((attrs, id, span))
}

/// `attrs module Name ;`
pub fn parse_module(state: &mut Parser) -> (r: Option<ModuleItem>)
    requires
        old(state).wf(),
    ensures
        final(state).wf(),
        final(state).ctx() == old(state).ctx(),
        (r.deep_view(), final(state).st()) == grammar::parse_module(old(state).ctx(), old(state).st()),
{
    proof {
        reveal(grammar::parse_module);
    }
    match parse_decl(
        state,
        "module",
        ErrorKind::EModuleExpected,
        ErrorKind::EModuleIdent,
        ErrorKind::EModuleSemicolon,
    ) {
        Some((attrs, id, span)) => Some(ModuleItem { attrs, id, span }),
        None => None,
    }
}

} // verus!
