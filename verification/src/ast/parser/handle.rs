//! Handle declarations: `handle Name;`.
use crate::ast::dom::HandleItem;
use crate::ast::grammar;
use crate::ast::parser::module::parse_decl;
use crate::ast::parser::Parser;
use crate::error::ErrorKind;
use vstd::prelude::*;

verus! {

/// `attrs handle Name ;`
pub fn parse_handle(state: &mut Parser) -> (r: Option<HandleItem>)
    requires
        old(state).wf(),
    ensures
        final(state).wf(),
        final(state).ctx() == old(state).ctx(),
        (r.deep_view(), final(state).st()) == grammar::parse_handle(old(state).ctx(), old(state).st()),
{
    proof {
        reveal(grammar::parse_handle);
    }
    match parse_decl(
        state,
        "handle",
        ErrorKind::EHandleExpected,
        ErrorKind::EHandleIdent,
        ErrorKind::EHandleSemicolon,
    ) {
        Some((attrs, id, span)) => Some(HandleItem { attrs, id, span }),
        None => None,
    }
}

} // verus!
