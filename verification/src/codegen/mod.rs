//! Source generation from the intermediate representation: Rust bindings
//! (`rust`) and raw FFI declarations (`rustsys`). Generation yields the
//! files to write, by path, in the order they are written.

pub mod rust;
pub mod rustsys;
pub mod text;

use vstd::prelude::*;

verus! {

/// A file to write: its path in the project, and its contents.
pub struct GeneratedFile {
    pub path: String,
    pub contents: String,
}

impl DeepView for GeneratedFile {
    type V = (Seq<char>, Seq<char>);

    open spec fn deep_view(&self) -> (Seq<char>, Seq<char>) {
        (self.path@, self.contents@)
    }
}

} // verus!
