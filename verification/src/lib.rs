//! A depth-first traversal, scope/symbol-binding and hygienic-rewrite engine
//! for a C-family scripting language with an XML-like element extension.

pub mod ancestry;
pub mod ast;
pub mod lower;
pub mod walk;
pub mod jsx_key;
pub mod media;
pub mod casing;
pub mod config;
pub mod diagnostics;
pub mod binding;
pub mod model;
pub mod scope;

use vstd::prelude::*;

verus! {

/// A half-open byte-offset range into the source text of one compilation unit.
#[derive(Clone, Copy, PartialEq, Eq, Structural, Debug)]
pub struct Span {
    pub start: u32,
    pub end: u32,
}

impl Span {
    /// The synthetic zero-width span carried by generated nodes, which have
    /// no source position.
    pub fn synthetic() -> (r: Span)
        ensures
            r == (Span { start: 0, end: 0 }),
    {
        Span { start: 0, end: 0 }
    }
}

} // verus!
