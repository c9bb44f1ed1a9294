//! Passes over the syntax tree: name qualification, and lowering into the
//! intermediate representation.

pub mod qualify_names;
pub mod ast2ir;
