//! Error recovery: skipping tokens up to a point where parsing can resume.
use crate::ast::grammar;
use crate::ast::lexer::{Punct, TokenKind};
use crate::ast::parser::{str_eq, Parser};
use crate::error::ErrorKind;
use vstd::prelude::*;
use vstd::string::StringSliceAdditionalSpecFns;

verus! {

/// The closing bracket that matches an opening one.
pub fn closer(k: TokenKind) -> (r: Option<Punct>)
    ensures
        r == grammar::closer_of(k),
{
    match k {
        TokenKind::Punct(Punct::LParen) => Some(Punct::RParen),
        TokenKind::Punct(Punct::LBracket) => Some(Punct::RBracket),
        TokenKind::Punct(Punct::LBrace) => Some(Punct::RBrace),
        _ => None,
    }
}

/// The kind is a closing bracket.
pub fn is_close(k: TokenKind) -> (r: bool)
    ensures
        r == grammar::is_close(k),
{
    match k {
        TokenKind::Punct(Punct::RParen) => true,
        TokenKind::Punct(Punct::RBracket) => true,
        TokenKind::Punct(Punct::RBrace) => true,
        _ => false,
    }
}

fn is_item_keyword(text: &str) -> (r: bool)
    ensures
        r == grammar::is_item_keyword(text.spec_bytes()),
{
    str_eq(text, "module") || str_eq(text, "enum") || str_eq(text, "error") || str_eq(text, "struct")
        || str_eq(text, "in") || str_eq(text, "out") || str_eq(text, "fn") || str_eq(text, "handle")
}

/// Skips a bracketed group that starts at the next token, nested groups
/// included; an unmatched closing bracket inside is reported.
pub fn skip_grouping(state: &mut Parser) -> (r: Option<()>)
    requires
        old(state).wf(),
    ensures
        final(state).wf(),
        final(state).ctx() == old(state).ctx(),
        (r is Some, final(state).st()) == grammar::skip_grouping(old(state).ctx(), old(state).st()),
    decreases grammar::measure(old(state).ctx(), old(state).st()),
{
    let ghost c = state.ctx();
    let ghost s0 = state.st();
    proof {
        state.lemma_wf();
    }
    if state.halted {
        return None;
    }
    let start = state.position();
    let left = match state.peek() {
        None => return None,
        Some(l) => l,
    };
    let right = match closer(left.kind) {
        None => return None,
        Some(r) => r,
    };
    state.next();
    proof {
        state.lemma_wf();
    }
    if !(start < state.position()) {
        state.halt();
        return None;
    }
    let ghost target = grammar::skip_grouping(c, s0);
    loop
        invariant
            state.wf(),
            state.ctx() == c,
            c == old(state).ctx(),
            s0 == old(state).st(),
            target == grammar::skip_grouping(c, s0),
            grammar::skip_loop(c, state.st(), left, right) == target,
            grammar::adv(c, s0, state.st()),
        decreases grammar::measure(c, state.st()),
    {
        proof {
            state.lemma_wf();
        }
        if state.halted {
            return None;
        }
        let p = state.position();
        let t = match state.peek() {
            None => return Some(()),
            Some(t) => t,
        };
        if t.kind == TokenKind::Punct(right) {
            state.next();
            return Some(());
        } else if closer(t.kind).is_some() {
            proof {
                state.lemma_wf();
            }
            if !(p <= state.position()) {
                state.halt();
                return None;
            }
            skip_grouping(state);
        } else if is_close(t.kind) {
            state.error(ErrorKind::EUnmatchedBraces, left.span);
            return None;
        } else {
            state.next();
        }
        proof {
            state.lemma_wf();
        }
        if !(p < state.position()) {
            state.halt();
            return None;
        }
    }
}

/// Recovers until after the next semicolon, or up to the start of a new item.
pub fn recover_item(state: &mut Parser)
    requires
        old(state).wf(),
    ensures
        final(state).wf(),
        final(state).ctx() == old(state).ctx(),
        final(state).st() == grammar::recover_item(old(state).ctx(), old(state).st()),
{
    let ghost c = state.ctx();
    let ghost target = grammar::recover_item(c, state.st());
    loop
        invariant_except_break
            grammar::recover_item(c, state.st()) == target,
        invariant
            state.wf(),
            state.ctx() == c,
            c == old(state).ctx(),
            target == grammar::recover_item(c, old(state).st()),
        ensures
            state.wf(),
            state.ctx() == c,
            state.st() == target,
        decreases grammar::measure(c, state.st()),
    {
        proof {
            state.lemma_wf();
        }
        if state.halted {
            break;
        }
        let p = state.position();
        let t = match state.peek() {
            None => break,
            Some(t) => t,
        };
        if t.kind == TokenKind::Punct(Punct::Semicolon) {
            state.next();
            break;
        } else if closer(t.kind).is_some() {
            skip_grouping(state);
        } else {
            if t.kind == TokenKind::Ident {
                let text = state.text(t.span);
                if is_item_keyword(text) {
                    break;
                }
            }
            state.next();
        }
        proof {
            state.lemma_wf();
        }
        if !(p < state.position()) {
            state.halt();
            break;
        }
    }
}

/// Recovers until after the next comma; a closing bracket is not consumed,
/// as the caller handles it.
pub fn recover_comma(state: &mut Parser)
    requires
        old(state).wf(),
    ensures
        final(state).wf(),
        final(state).ctx() == old(state).ctx(),
        final(state).st() == grammar::recover_comma(old(state).ctx(), old(state).st()),
{
    let ghost c = state.ctx();
    let ghost target = grammar::recover_comma(c, state.st());
    loop
        invariant_except_break
            grammar::recover_comma(c, state.st()) == target,
        invariant
            state.wf(),
            state.ctx() == c,
            c == old(state).ctx(),
            target == grammar::recover_comma(c, old(state).st()),
        ensures
            state.wf(),
            state.ctx() == c,
            state.st() == target,
        decreases grammar::measure(c, state.st()),
    {
        proof {
            state.lemma_wf();
        }
        if state.halted {
            break;
        }
        let p = state.position();
        let t = match state.peek() {
            None => break,
            Some(t) => t,
        };
        if t.kind == TokenKind::Punct(Punct::Comma) {
            state.next();
            break;
        } else if closer(t.kind).is_some() {
            skip_grouping(state);
        } else if is_close(t.kind) {
            break;
        } else {
            state.next();
        }
        proof {
            state.lemma_wf();
        }
        if !(p < state.position()) {
            state.halt();
            break;
        }
    }
}

/// Skips tokens until after the expected closing bracket, nested groups
/// included; another closing bracket is reported and stops the skip.
pub fn recover_grouping(state: &mut Parser, expected_closing: Punct)
    requires
        old(state).wf(),
    ensures
        final(state).wf(),
        final(state).ctx() == old(state).ctx(),
        final(state).st() == grammar::recover_grouping(old(state).ctx(), old(state).st(), expected_closing),
{
    let ghost c = state.ctx();
    let ghost target = grammar::recover_grouping(c, state.st(), expected_closing);
    loop
        invariant_except_break
            grammar::recover_grouping(c, state.st(), expected_closing) == target,
        invariant
            state.wf(),
            state.ctx() == c,
            c == old(state).ctx(),
            target == grammar::recover_grouping(c, old(state).st(), expected_closing),
        ensures
            state.wf(),
            state.ctx() == c,
            state.st() == target,
        decreases grammar::measure(c, state.st()),
    {
        proof {
            state.lemma_wf();
        }
        if state.halted {
            break;
        }
        let p = state.position();
        let t = match state.peek() {
            None => break,
            Some(t) => t,
        };
        match t.kind {
            TokenKind::Punct(punct) => {
                if punct == expected_closing {
                    state.next();
                    break;
                }
                if closer(t.kind).is_some() {
                    skip_grouping(state);
                } else if is_close(t.kind) {
                    state.error(ErrorKind::EUnmatchedBraces, t.span);
                    break;
                } else {
                    state.next();
                }
            },
            _ => {
                state.next();
            },
        }
        proof {
            state.lemma_wf();
        }
        if !(p < state.position()) {
            state.halt();
            break;
        }
    }
}

} // verus!
