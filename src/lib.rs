//! Rewrites the text of a book chapter: lines of the form `r[id]` become rule
//! anchors, and `> [!label]` callouts become wrapped admonition blocks.
use vstd::prelude::*;

pub mod markup;
pub mod passes;
pub mod laws;

pub use passes::{admonition_fragment, expand_admonitions, expand_rule_references, rewrite};



verus! {

/// The preprocessor: stateless, it rewrites each chapter independently.
pub struct Spec;

impl Spec {
    pub fn new() -> (r: Spec)
        ensures
            r == Spec,
    {
        Spec
    }

    /// The name under which the preprocessor reports itself.
    pub fn name(&self) -> (r: &'static str)
        ensures
            r@ == "nop-preprocessor"@,
    {
        "nop-preprocessor"
    }
}

} // verus!
