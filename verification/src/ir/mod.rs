//! The intermediate representation that code generation reads.

pub mod dom;
