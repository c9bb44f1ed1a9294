//! Function declarations.
//!
//! ```text
//! fn Foo(a: i32, b: string) -> i32, error { ... };
//! fn Foo(a: i32, b: string) -> i32, NoReturnError;
//! fn Foo(a: i32, b: string) -> i32;
//! fn NoReturn(a: i32, b: string) error { ... };
//! fn NoReturn(a: i32, b: string) NoReturnError;
//! fn NoReturnNoError(a: i32, b: string);
//! ```
use crate::ast::dom::{FnItem, FnParams, TypeDecl};
use crate::ast::grammar;
use crate::ast::lexer::{Punct, TokenKind};
use crate::ast::parser::recover::{recover_comma, recover_item};
use crate::ast::parser::structure::parse_fields;
use crate::ast::parser::ty::parse_type;
use crate::ast::parser::{parse_attrs, str_eq, Parser};
use crate::error::ErrorKind;
use vstd::prelude::*;

verus! {

/// `attrs fn Name ( params ) types ;`
pub fn parse_fn(state: &mut Parser) -> (r: Option<FnItem>)
    requires
        old(state).wf(),
    ensures
        final(state).wf(),
        final(state).ctx() == old(state).ctx(),
        (r.deep_view(), final(state).st()) == grammar::parse_fn(old(state).ctx(), old(state).st()),
{
    proof {
        reveal(grammar::parse_fn);
    }
    if state.halted {
        return None;
    }
    // Attributes
    let attrs = parse_attrs(state);

    // Keyword `fn`
    let keyword = match state.next_or_error(ErrorKind::EFnExpected) {
        None => return None,
        Some(t) => t,
    };
    let text = state.text(keyword.span);
    if !str_eq(text, "fn") {
        state.error(ErrorKind::EFnExpected, keyword.span);
        recover_item(state);
        return None;
    }

    let ident = match state.next_or_error(ErrorKind::EFnIdent) {
        None => return None,
        Some(t) => t,
    };
    if ident.kind != TokenKind::Ident {
        state.error(ErrorKind::EFnIdent, ident.span);
        recover_item(state);
        return None;
    }
    let id = state.ident(ident);

    let params = match parse_fn_params(state) {
        None => return None,
        Some(p) => p,
    };

    // Optional return and error types
    let (return_ty, error_ty) = match parse_fn_types(state) {
        None => return None,
        Some(t) => t,
    };

    // Semicolon `;`
    let semicolon = match state.next_or_error(ErrorKind::EOF) {
        None => return None,
        Some(t) => t,
    };
    if semicolon.kind != TokenKind::Punct(Punct::Semicolon) {
        state.error(ErrorKind::EFnSemicolonExpected, semicolon.span);
        recover_item(state);
        return None;
    }

    let span = keyword.span.combine(&semicolon.span);
    Some(FnItem { attrs, id, params, return_ty, error_ty, span })
}

/// `-> T`, `-> T, E`, `E`, or nothing, before the `;`: the return type and
/// the error type.
fn parse_fn_types(state: &mut Parser) -> (r: Option<(Option<TypeDecl>, Option<TypeDecl>)>)
    requires
        old(state).wf(),
    ensures
        final(state).wf(),
        final(state).ctx() == old(state).ctx(),
        (r.deep_view(), final(state).st()) == grammar::parse_fn_types(old(state).ctx(), old(state).st()),
{
    proof {
        reveal(grammar::parse_fn_types);
    }
    if state.halted {
        return None;
    }
    let mut return_ty = None;
    let mut error_ty = None;

    let arrow_token = match state.peek_or_error(ErrorKind::EOF) {
        None => return None,
        Some(t) => t,
    };
    if arrow_token.kind == TokenKind::Punct(Punct::Arrow) {
        state.next();
        return_ty = parse_type(state);

        // Optional error type
        let token2 = match state.peek_or_error(ErrorKind::EOF) {
            None => return None,
            Some(t) => t,
        };
        if token2.kind == TokenKind::Punct(Punct::Comma) {
            state.next();
            error_ty = parse_type(state);
        }
    } else if arrow_token.kind != TokenKind::Punct(Punct::Semicolon) {
        error_ty = parse_type(state);
    }
    Some((return_ty, error_ty))
}

/// `( params )`
fn parse_fn_params(state: &mut Parser) -> (r: Option<FnParams>)
    requires
        old(state).wf(),
    ensures
        final(state).wf(),
        final(state).ctx() == old(state).ctx(),
        (r.deep_view(), final(state).st()) == grammar::parse_fn_params(old(state).ctx(), old(state).st()),
{
    proof {
        reveal(grammar::parse_fn_params);
    }
    if state.halted {
        return None;
    }
    // `(` punct
    let open = match state.next_or_error(ErrorKind::EFnLParen) {
        None => return None,
        Some(t) => t,
    };
    if open.kind != TokenKind::Punct(Punct::LParen) {
        state.error(ErrorKind::EFnLParen, open.span);
        recover_item(state);
        return None;
    }

    let items = match parse_fields(state, open, Punct::RParen, ErrorKind::EOF) {
        None => return None,
        Some(items) => items,
    };

    // `)` punct
    let close = match state.next_or_error(ErrorKind::EFnRParen) {
        None => return None,
        Some(t) => t,
    };
    if close.kind != TokenKind::Punct(Punct::RParen) {
        state.error(ErrorKind::EFnRParen, close.span);
        recover_comma(state);
        return None;
    }

    let span = open.span.combine(&close.span);
    Some(FnParams { items, span })
}

} // verus!
