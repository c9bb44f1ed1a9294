//! Struct declarations and field lists.
use crate::ast::dom::{
    fields_seq_v, lemma_type_decl_v, lemma_field_v, lemma_fields_empty, lemma_fields_push, lemma_struct_item_v, DefaultValue, StructDirection, StructField, StructFields,
    StructItem,
};
use crate::ast::grammar;
use crate::ast::lexer::{Punct, Token, TokenKind};
use crate::ast::parser::enumeration::parse_opt_ident;
use crate::ast::parser::recover::{is_close, recover_comma, recover_item};
use crate::ast::parser::ty::parse_type;
use crate::ast::parser::{parse_attrs, str_eq, skip_comments, Parser};
use crate::error::ErrorKind;
use vstd::prelude::*;

verus! {

/// `attrs (in|out)? struct Name? { fields }`; the span runs from the first
/// token after the attributes.
pub fn parse_struct(state: &mut Parser) -> (r: Option<StructItem>)
    requires
        old(state).wf(),
    ensures
        final(state).wf(),
        final(state).ctx() == old(state).ctx(),
        (r.deep_view(), final(state).st()) == grammar::parse_struct(old(state).ctx(), old(state).st()),
    decreases grammar::measure(old(state).ctx(), old(state).st()), 3int,
{
    proof {
        state.lemma_wf();
    }
    if state.halted {
        return None;
    }
    let start = state.position();

    // Attributes
    let attrs = parse_attrs(state);

    // Optional `in` or `out` keyword
    let mut direction = None;
    let keyword_inout = match state.peek_or_error(ErrorKind::EStructExpected) {
        None => return None,
        Some(t) => t,
    };
    if keyword_inout.kind == TokenKind::Ident {
        let text = state.text(keyword_inout.span);
        if str_eq(text, "in") {
            direction = Some(StructDirection::In);
        } else if str_eq(text, "out") {
            direction = Some(StructDirection::Out);
        }
        if direction.is_some() {
            state.next();
        }
    }

    // `struct` keyword
    let keyword = match state.next_or_error(ErrorKind::EStructExpected) {
        None => return None,
        Some(t) => t,
    };
    let text = state.text(keyword.span);
    if !str_eq(text, "struct") {
        state.error(ErrorKind::EStructExpected, keyword.span);
        recover_item(state);
        return None;
    }

    // Optional identifier
    let id = match parse_opt_ident(state, ErrorKind::EStructIdent) {
        None => return None,
        Some(id) => id,
    };

    proof {
        state.lemma_wf();
    }
    if !(start < state.position()) {
        state.halt();
        return None;
    }

    // Struct fields `{ ... }`
    let fields = match parse_struct_fields(state) {
        None => return None,
        Some(f) => f,
    };

    let span = keyword_inout.span.combine(&fields.span);
    let item = StructItem { attrs, direction, id, fields, span };
    proof {
        lemma_struct_item_v(item);
    }
    Some(item)
}

/// `{ fields }`
pub fn parse_struct_fields(state: &mut Parser) -> (r: Option<StructFields>)
    requires
        old(state).wf(),
    ensures
        final(state).wf(),
        final(state).ctx() == old(state).ctx(),
        (r.deep_view(), final(state).st()) == grammar::parse_struct_fields(old(state).ctx(), old(state).st()),
        r matches Some(f) ==> f.span.index == old(state).ctx().fi,
    decreases grammar::measure(old(state).ctx(), old(state).st()), 2int,
{
    proof {
        state.lemma_wf();
    }
    if state.halted {
        return None;
    }
    let start = state.position();

    // `{` punct
    let open = match state.next_or_error(ErrorKind::EStructLBrace) {
        None => return None,
        Some(t) => t,
    };
    if open.kind != TokenKind::Punct(Punct::LBrace) {
        state.error(ErrorKind::EStructLBrace, open.span);
        recover_item(state);
        return None;
    }
    proof {
        state.lemma_wf();
    }
    if !(start < state.position()) {
        state.halt();
        return None;
    }

    let items = match parse_fields(state, open, Punct::RBrace, ErrorKind::EStructFieldExpected) {
        None => return None,
        Some(items) => items,
    };

    // `}` punct
    let close = match state.next_or_error(ErrorKind::EStructRBrace) {
        None => return None,
        Some(t) => t,
    };
    if close.kind != TokenKind::Punct(Punct::RBrace) {
        state.error(ErrorKind::EStructRBrace, close.span);
        recover_comma(state);
        return None;
    }

    let span = open.span.combine(&close.span);
    Some(StructFields { items, span })
}

/// The fields of a list after its opening bracket `open`, separated by
/// commas, up to the closing bracket `close`, which is left in place. The end
/// of the input at the head of an entry is reported as `head_err`; a closing
/// bracket of another kind is reported as unmatched.
pub fn parse_fields(state: &mut Parser, open: Token, close: Punct, head_err: ErrorKind) -> (r: Option<Vec<StructField>>)
    requires
        old(state).wf(),
    ensures
        final(state).wf(),
        final(state).ctx() == old(state).ctx(),
        final(state).st() == grammar::fields_loop(old(state).ctx(), old(state).st(), open, close, head_err, seq![]).1,
        match r {
            Some(v) => grammar::fields_loop(old(state).ctx(), old(state).st(), open, close, head_err, seq![]).0
                == Some(fields_seq_v(v@)),
            None => grammar::fields_loop(old(state).ctx(), old(state).st(), open, close, head_err, seq![]).0 is None,
        },
    decreases grammar::measure(old(state).ctx(), old(state).st()), 1int,
{
    let ghost c = state.ctx();
    let ghost target = grammar::fields_loop(c, state.st(), open, close, head_err, seq![]);
    let mut items: Vec<StructField> = Vec::new();
    proof {
        lemma_fields_empty(items@);
    }
    loop
        invariant_except_break
            grammar::fields_loop(c, state.st(), open, close, head_err, fields_seq_v(items@)) == target,
            old(state).st().pos <= state.st().pos,
        invariant
            state.wf(),
            state.ctx() == c,
            c == old(state).ctx(),
            target == grammar::fields_loop(c, old(state).st(), open, close, head_err, seq![]),
        ensures
            state.wf(),
            state.ctx() == c,
            target == (Some(fields_seq_v(items@)), state.st()),
        decreases grammar::measure(c, state.st()),
    {
        proof {
            state.lemma_wf();
        }
        if state.halted {
            return None;
        }
        let start = state.position();
        skip_comments(state);
        let token = match state.peek_or_error(head_err) {
            None => return None,
            Some(t) => t,
        };
        if token.kind == TokenKind::Punct(close) {
            break;
        } else if is_close(token.kind) {
            state.error(ErrorKind::EUnmatchedBraces, open.span);
            return None;
        }
        proof {
            state.lemma_wf();
        }
        if !(start <= state.position()) {
            state.halt();
            return None;
        }
        let ghost before = items@;
        match parse_struct_field(state) {
            Some(value) => {
                items.push(value);
                proof {
                    lemma_fields_push(before, value);
                }
            },
            None => {},
        }

        match parse_field_sep(state, close) {
            None => return None,
            Some(true) => break,
            Some(false) => {},
        }
        proof {
            state.lemma_wf();
        }
        if !(start < state.position()) {
            state.halt();
            return None;
        }
    }
    Some(items)
}

/// What follows a field: `None` at the end of the input, `true` before the
/// closing bracket, `false` after a comma, or after skipping what stands in
/// its place.
fn parse_field_sep(state: &mut Parser, close: Punct) -> (r: Option<bool>)
    requires
        old(state).wf(),
    ensures
        final(state).wf(),
        final(state).ctx() == old(state).ctx(),
        (r, final(state).st()) == grammar::field_sep(old(state).ctx(), old(state).st(), close),
{
    proof {
        reveal(grammar::field_sep);
    }
    let comma = match state.peek_or_error(ErrorKind::EOF) {
        None => return None,
        Some(t) => t,
    };
    if comma.kind == TokenKind::Punct(close) {
        Some(true)
    } else if comma.kind == TokenKind::Punct(Punct::Comma) {
        state.next();
        Some(false)
    } else {
        state.error(ErrorKind::EStructFieldExpected, comma.span);
        recover_comma(state);
        Some(false)
    }
}

/// `attrs name : Type (= literal)?`
pub fn parse_struct_field(state: &mut Parser) -> (r: Option<StructField>)
    requires
        old(state).wf(),
    ensures
        final(state).wf(),
        final(state).ctx() == old(state).ctx(),
        (r.deep_view(), final(state).st()) == grammar::parse_struct_field(old(state).ctx(), old(state).st()),
    decreases grammar::measure(old(state).ctx(), old(state).st()), 0int,
{
    proof {
        state.lemma_wf();
    }
    if state.halted {
        return None;
    }
    let start = state.position();

    // Attributes
    let attrs = parse_attrs(state);

    // Identifier
    let ident = match state.next_or_error(ErrorKind::EStructFieldIdent) {
        None => return None,
        Some(t) => t,
    };
    if ident.kind != TokenKind::Ident {
        state.error(ErrorKind::EStructFieldIdent, ident.span);
        recover_comma(state);
        return None;
    }
    let id = state.ident(ident);

    // `:` punct
    let colon = match state.next_or_error(ErrorKind::EStructFieldColon) {
        None => return None,
        Some(t) => t,
    };
    if colon.kind != TokenKind::Punct(Punct::Colon) {
        state.error(ErrorKind::EStructFieldColon, colon.span);
        recover_comma(state);
        return None;
    }
    proof {
        state.lemma_wf();
    }
    if !(start < state.position()) {
        state.halt();
        return None;
    }

    // Type
    let ty = match parse_type(state) {
        None => return None,
        Some(t) => t,
    };
    proof {
        lemma_type_decl_v(ty);
    }

    // Default value (optional)
    let mut default = None;
    let punct = match state.peek() {
        None => return None,
        Some(t) => t,
    };
    if punct.kind == TokenKind::Punct(Punct::Eq) {
        state.next();
        default = parse_default_value(state);
    }

    let span = ident.span.combine(&ty.span);
    let field = StructField { attrs, id, ty, default, span };
    proof {
        lemma_field_v(field);
    }
    Some(field)
}

/// A literal after the `=` of a field.
pub fn parse_default_value(state: &mut Parser) -> (r: Option<DefaultValue>)
    requires
        old(state).wf(),
    ensures
        final(state).wf(),
        final(state).ctx() == old(state).ctx(),
        final(state).st() == grammar::parse_default_value(old(state).ctx(), old(state).st()).1,
        match r {
            Some(v) => grammar::parse_default_value(old(state).ctx(), old(state).st()).0 == Some(
                (v.span, v.value@),
            ),
            None => grammar::parse_default_value(old(state).ctx(), old(state).st()).0 is None,
        },
{
    proof {
        reveal(grammar::parse_default_value);
    }
    let token = match state.next_or_error(ErrorKind::EStructFieldDefaultValue) {
        None => return None,
        Some(t) => t,
    };
    if !matches!(token.kind, TokenKind::Literal(_)) {
        state.error(ErrorKind::EStructFieldDefaultValue, token.span);
        return None;
    }
    let value = state.text(token.span).to_owned();
    Some(DefaultValue { span: token.span, value })
}

} // verus!
