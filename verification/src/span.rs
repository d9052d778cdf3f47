//! Read-only views into the original source buffer.
//!
//! Every leaf token of the document tree refers to the source text by a
//! half-open byte range rather than by a copy; the buffer is owned by the
//! caller and outlives every structure derived from it.
use vstd::prelude::*;

verus! {

/// A half-open byte range `[start, end)` into a single immutable source
/// buffer.
#[derive(Debug, Clone, Copy, PartialEq, Eq, Structural)]
pub struct Span {
    pub start: usize,
    pub end: usize,
}

impl Span {
    /// A span lies inside a buffer of `len` bytes.
    pub open spec fn wf(self, len: nat) -> bool {
        self.start <= self.end <= len
    }

    /// The bytes the span denotes, as a mathematical sequence.
    pub open spec fn text(self, src: Seq<u8>) -> Seq<u8> {
        src.subrange(self.start as int, self.end as int)
    }

    pub open spec fn spec_len(self) -> int {
        self.end - self.start
    }

    /// Number of bytes the span covers.
    pub fn len(&self) -> (r: usize)
        requires
            self.start <= self.end,
        ensures
            r == self.spec_len(),
    {
        self.end - self.start
    }

    /// Slices the span out of the original source buffer: the returned bytes
    /// are exactly the substring the span denotes.
    pub fn slice<'a>(&self, src: &'a [u8]) -> (r: &'a [u8])
        requires
            self.wf(src@.len()),
        ensures
            r@ == self.text(src@),
    {
        &src[self.start..self.end]
    }
}

} // verus!
