use vstd::prelude::*;

verus! {

/// A half-open byte range `[start, end)` into the source text.
#[derive(Clone, Copy, PartialEq, Eq, Structural, Debug)]
pub struct Span {
    pub start: usize,
    pub end: usize,
}

impl Span {
    /// A well-formed span does not run backwards.
    pub open spec fn wf(self) -> bool {
        self.start <= self.end
    }
}

/// Builds a span from mathematical positions; meaningful when both fit in `usize`.
pub open spec fn span_at(start: int, end: int) -> Span {
    Span { start: start as usize, end: end as usize }
}

} // verus!
