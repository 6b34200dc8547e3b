use vstd::prelude::*;

verus! {

/// A range of source positions, counted in characters from the start of the input.
#[derive(Debug, Clone, Copy, PartialEq, Eq, Hash)]
pub struct Span {
    pub start: usize,
    pub len: usize,
}

impl Span {
    pub fn new_with_len(start: usize, len: usize) -> (r: Span)
        ensures
            r.start == start,
            r.len == len,
    {
        Span { start, len }
    }

    /// The span of the single position `pos`.
    pub fn new_one(pos: usize) -> (r: Span)
        ensures
            r.start == pos,
            r.len == 1,
    {
        Span { start: pos, len: 1 }
    }
}

/// A value together with the source range it came from.
#[derive(Debug, Clone, PartialEq, Eq, Hash)]
pub struct Spanned<T> {
    pub inner: T,
    pub span: Span,
}

impl<T> Spanned<T> {
    pub fn new(inner: T, span: Span) -> (r: Spanned<T>)
        ensures
            r.inner == inner,
            r.span == span,
    {
        Spanned { inner, span }
    }
}

} // verus!
