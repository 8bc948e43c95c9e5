//! Source positions.

use vstd::prelude::*;

verus! {

/// A half-open range of byte offsets into a source text.
#[derive(Debug, Clone, Copy, PartialEq, Eq, Structural)]
pub struct Span {
    pub start: usize,
    pub end: usize,
}

impl Default for Span {
    /// The empty range at the start of the text.
    fn default() -> (r: Span)
        ensures
            r == no_span(),
    {
        Span { start: 0, end: 0 }
    }
}

/// The range that stands for "no position".
pub open spec fn no_span() -> Span {
    Span { start: 0, end: 0 }
}

} // verus!
