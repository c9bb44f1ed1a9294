//! Cradle interface definition language: lexing, parsing, name qualification,
//! lowering into an intermediate representation and source generation.

pub mod span;
pub mod pool;
pub mod error;
pub mod ast;
pub mod text;
pub mod num;
pub mod case;
pub mod passes;
pub mod ir;
pub mod codegen;
pub mod example;

pub use error::{Error, ErrorKind};
pub use pool::StringPool;
pub use span::{ResolvedSpan, SourceSpan};
