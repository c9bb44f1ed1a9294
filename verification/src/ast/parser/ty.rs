//! Types: primitives, `string`, names, inline declarations, and modifiers.
//!
//! ```text
//! i32
//! f32[] f32[,] f32[,,]
//! char[255]
//! string
//! (Module.)?TypeName
//! (in|out)? struct Foo { ... }
//! enum Foo { ... }
//! error FooError { ... }
//! ```
use crate::ast::dom::{lemma_type_decl_v, PrimitiveType, TypeDecl, TypeDeclKind, TypeModifier, TypeName};
use crate::ast::grammar;
use crate::ast::grammar::PState;
use crate::ast::lexer::{Literal, Punct, TokenKind};
use crate::ast::parser::enumeration::parse_enum;
use crate::ast::parser::error::parse_error;
use crate::ast::parser::recover::{recover_comma, recover_grouping};
use crate::ast::parser::structure::parse_struct;
use crate::ast::parser::{str_eq, Parser};
use crate::error::ErrorKind;
use crate::num::parse_usize;
use vstd::prelude::*;
use vstd::string::StringSliceAdditionalSpecFns;

verus! {

fn primitive_of(text: &str) -> (r: Option<PrimitiveType>)
    ensures
        r == grammar::primitive_of(text.spec_bytes()),
{
    if str_eq(text, "i8") {
        Some(PrimitiveType::I8)
    } else if str_eq(text, "i16") {
        Some(PrimitiveType::I16)
    } else if str_eq(text, "i32") {
        Some(PrimitiveType::I32)
    } else if str_eq(text, "i64") {
        Some(PrimitiveType::I64)
    } else if str_eq(text, "isize") {
        Some(PrimitiveType::Isize)
    } else if str_eq(text, "u8") {
        Some(PrimitiveType::U8)
    } else if str_eq(text, "u16") {
        Some(PrimitiveType::U16)
    } else if str_eq(text, "u32") {
        Some(PrimitiveType::U32)
    } else if str_eq(text, "u64") {
        Some(PrimitiveType::U64)
    } else if str_eq(text, "usize") {
        Some(PrimitiveType::Usize)
    } else if str_eq(text, "f32") {
        Some(PrimitiveType::F32)
    } else if str_eq(text, "f64") {
        Some(PrimitiveType::F64)
    } else if str_eq(text, "bool") {
        Some(PrimitiveType::Bool)
    } else if str_eq(text, "char") {
        Some(PrimitiveType::Char)
    } else {
        None
    }
}

/// A type, then an optional modifier; the span is that of the first token.
pub fn parse_type(state: &mut Parser) -> (r: Option<TypeDecl>)
    requires
        old(state).wf(),
    ensures
        final(state).wf(),
        final(state).ctx() == old(state).ctx(),
        (r.deep_view(), final(state).st()) == grammar::parse_type(old(state).ctx(), old(state).st()),
        r matches Some(t) ==> t.span.index == old(state).ctx().fi,
    decreases grammar::measure(old(state).ctx(), old(state).st()), 5int,
{
    proof {
        state.lemma_wf();
    }
    if state.halted {
        return None;
    }
    let ghost s0 = state.st();
    let start = state.position();
    let token1 = match state.peek_or_error(ErrorKind::ETypeExpected) {
        None => return None,
        Some(t) => t,
    };
    if token1.kind != TokenKind::Ident {
        state.error(ErrorKind::ETypeExpected, token1.span);
        recover_comma(state);
        return None;
    }

    let text1 = state.text(token1.span);
    let kind = match parse_type_kind(state, Ghost(s0), start, text1) {
        None => return None,
        Some(k) => k,
    };

    let modifier = parse_modifier(state);

    let decl = TypeDecl { kind, modifier, span: token1.span };
    proof {
        lemma_type_decl_v(decl);
    }
    Some(decl)
}

/// The kind of a type whose first token, an identifier, reads `text1`;
/// `start` is the position before that token was looked at.
#[verifier::spinoff_prover]
#[verifier::rlimit(40)]
fn parse_type_kind(state: &mut Parser, Ghost(s0): Ghost<PState>, start: usize, text1: &str) -> (r: Option<TypeDeclKind>)
    requires
        old(state).wf(),
        start == s0.pos,
        0 <= s0.pos,
    ensures
        final(state).wf(),
        final(state).ctx() == old(state).ctx(),
        (r.deep_view(), final(state).st()) == grammar::type_kind(old(state).ctx(), s0, old(state).st(), text1.spec_bytes()),
    decreases grammar::measure(old(state).ctx(), s0), 4int,
{
    if str_eq(text1, "in") || str_eq(text1, "out") || str_eq(text1, "struct") {
        proof {
            state.lemma_wf();
        }
        if !(start <= state.position()) {
            state.halt();
            return None;
        }
        match parse_struct(state) {
            None => None,
            Some(s) => Some(TypeDeclKind::Struct(s)),
        }
    } else if str_eq(text1, "enum") {
        match parse_enum(state) {
            None => None,
            Some(e) => Some(TypeDeclKind::Enum(e)),
        }
    } else if str_eq(text1, "error") {
        match parse_error(state) {
            None => None,
            Some(e) => Some(TypeDeclKind::Error(e)),
        }
    } else if str_eq(text1, "string") {
        state.next();
        Some(TypeDeclKind::String)
    } else {
        match primitive_of(text1) {
            Some(p) => {
                state.next();
                Some(TypeDeclKind::Primitive(p))
            },
            None => match parse_type_name(state) {
                None => None,
                Some(n) => Some(TypeDeclKind::TypeName(n)),
            },
        }
    }
}

/// `Name` or `Module.Name`.
pub fn parse_type_name(state: &mut Parser) -> (r: Option<TypeName>)
    requires
        old(state).wf(),
    ensures
        final(state).wf(),
        final(state).ctx() == old(state).ctx(),
        (r.deep_view(), final(state).st()) == grammar::parse_type_name(old(state).ctx(), old(state).st()),
{
    proof {
        reveal(grammar::parse_type_name);
    }
    let token1 = match state.next_or_error(ErrorKind::ETypeNameExpected) {
        None => return None,
        Some(t) => t,
    };
    if token1.kind != TokenKind::Ident {
        state.error(ErrorKind::ETypeNameExpected, token1.span);
        recover_comma(state);
        return None;
    }

    if let Some(dot) = state.peek() {
        if dot.kind == TokenKind::Punct(Punct::Dot) {
            state.next();

            let token2 = match state.next_or_error(ErrorKind::ETypeNameExpected) {
                None => return None,
                Some(t) => t,
            };
            if token2.kind != TokenKind::Ident {
                state.error(ErrorKind::ETypeNameExpected, token2.span);
                recover_comma(state);
                return None;
            }

            let module = state.ident(token1);
            let name = state.ident(token2);
            let span = token1.span.combine(&token2.span);
            return Some(TypeName { module: Some(module), name, span });
        }
    }

    let name = state.ident(token1);
    Some(TypeName { module: None, name, span: token1.span })
}

/// The commas between `[` and `]`: the number of dimensions, counted from
/// `ndims`; the `]` is left in place.
fn dims_loop(state: &mut Parser, ndims: u64) -> (r: Option<u64>)
    requires
        old(state).wf(),
        ndims == 1,
    ensures
        final(state).wf(),
        final(state).ctx() == old(state).ctx(),
        final(state).st() == grammar::dims_loop(old(state).ctx(), old(state).st(), ndims as int).1,
        match r {
            Some(n) => grammar::dims_loop(old(state).ctx(), old(state).st(), ndims as int).0 == Some(n as int),
            None => grammar::dims_loop(old(state).ctx(), old(state).st(), ndims as int).0 is None,
        },
{
    let ghost c = state.ctx();
    let ghost target = grammar::dims_loop(c, state.st(), ndims as int);
    let mut n = ndims;
    proof {
        state.lemma_wf();
    }
    loop
        invariant_except_break
            grammar::dims_loop(c, state.st(), n as int) == target,
            old(state).st().pos <= state.st().pos,
            n <= 1 + state.st().pos - old(state).st().pos,
        invariant
            state.wf(),
            state.ctx() == c,
            c == old(state).ctx(),
            target == grammar::dims_loop(c, old(state).st(), ndims as int),
            0 <= old(state).st().pos,
            c.bytes.len() < u32::MAX,
            n <= 1 + c.bytes.len() + 1,
        ensures
            state.wf(),
            state.ctx() == c,
            target == (Some(n as int), state.st()),
        decreases grammar::measure(c, state.st()),
    {
        proof {
            state.lemma_wf();
        }
        if state.halted {
            return None;
        }
        let start = state.position();
        let token = match state.peek_or_error(ErrorKind::ETypeModifierExpected) {
            None => return None,
            Some(t) => t,
        };
        match token.kind {
            TokenKind::Punct(Punct::Comma) => {
                state.next();
                proof {
                    state.lemma_wf();
                }
                if !(start < state.position()) {
                    state.halt();
                    return None;
                }
                n = n + 1;
            },
            TokenKind::Punct(Punct::RBracket) => break,
            _ => {
                state.error(ErrorKind::ETypeModifierExpected, token.span);
                recover_grouping(state, Punct::RBracket);
                return None;
            },
        }
    }
    Some(n)
}

/// `[N]`, `[]`, `[,]` or `[,,]`, closing bracket included; nothing when the
/// next token is not `[`.
pub fn parse_modifier(state: &mut Parser) -> (r: Option<TypeModifier>)
    requires
        old(state).wf(),
    ensures
        final(state).wf(),
        final(state).ctx() == old(state).ctx(),
        (r, final(state).st()) == grammar::parse_modifier(old(state).ctx(), old(state).st()),
{
    proof {
        reveal(grammar::parse_modifier);
    }
    let open = match state.peek() {
        None => return None,
        Some(t) => t,
    };
    if open.kind != TokenKind::Punct(Punct::LBracket) {
        // No modifier, which is fine
        return None;
    }
    state.next();

    let token = match state.peek_or_error(ErrorKind::ETypeModifierExpected) {
        None => return None,
        Some(t) => t,
    };

    if let TokenKind::Literal(lit) = token.kind {
        state.next();
        if lit != Literal::Integer {
            state.error(ErrorKind::ETypeModifierIntegerExpected, token.span);
            recover_grouping(state, Punct::RBracket);
            return None;
        }
        let value = state.text(token.span);
        let len = match parse_usize(value.as_bytes()) {
            Some(n) => n,
            None => {
                state.error(ErrorKind::ETypeModifierIntegerExpected, token.span);
                recover_grouping(state, Punct::RBracket);
                return None;
            },
        };
        if len == 0 || len >= 0x10000 {
            state.error(ErrorKind::ETypeModifierOutOfRange, token.span);
            recover_grouping(state, Punct::RBracket);
            return None;
        }
        let close = match state.next_or_error(ErrorKind::ETypeModifierExpected) {
            None => return None,
            Some(t) => t,
        };
        if close.kind != TokenKind::Punct(Punct::RBracket) {
            state.error(ErrorKind::ETypeModifierExpected, close.span);
            recover_grouping(state, Punct::RBracket);
            return None;
        }
        return Some(TypeModifier::ArrayLen(len as u16));
    }

    // Count the commas
    let ndims = match dims_loop(state, 1) {
        None => return None,
        Some(n) => n,
    };

    let close = match state.next_or_error(ErrorKind::ETypeModifierExpected) {
        None => return None,
        Some(t) => t,
    };
    if close.kind != TokenKind::Punct(Punct::RBracket) {
        state.error(ErrorKind::ETypeModifierExpected, close.span);
        recover_grouping(state, Punct::RBracket);
        return None;
    }

    if ndims == 1 {
        Some(TypeModifier::Array1D)
    } else if ndims == 2 {
        Some(TypeModifier::Array2D)
    } else if ndims == 3 {
        Some(TypeModifier::Array3D)
    } else {
        state.error(ErrorKind::ETypeModifierTooManyDimensions, open.span);
        recover_grouping(state, Punct::RBracket);
        None
    }
}

} // verus!
