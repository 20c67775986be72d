use vstd::prelude::*;

verus! {

/// Index of a token in an AST's token list.
pub type AstIndex = usize;

/// Distance between an open token and its close token.
pub type AstDelta = usize;

/// Index of a byte in the source.
pub type ByteIndex = usize;

/// Index of a literal in an AST's literal pool.
pub type LiteralIndex = usize;

/// Index of a raw (non-UTF-8) literal in an AST.
pub type RawLiteralIndex = usize;

/// Index of a whitespace string in the whitespace pool of the source data.
pub type WhitespaceIndex = usize;

/// Index of a block (scope) in an AST.
pub type BlockIndex = usize;

/// Index of a field in an AST.
pub type FieldIndex = usize;

/// A half-open range of source bytes.
#[derive(Debug, Copy, Clone, PartialEq, Eq, Structural)]
pub struct ByteRange {
    pub start: ByteIndex,
    pub end: ByteIndex,
}

impl ByteRange {
    pub fn new(start: ByteIndex, end: ByteIndex) -> (r: ByteRange)
        ensures
            r.start == start,
            r.end == end,
    {
        ByteRange { start, end }
    }

    /// The empty range at `index`.
    pub fn empty(index: ByteIndex) -> (r: ByteRange)
        ensures
            r.start == index,
            r.end == index,
    {
        ByteRange { start: index, end: index }
    }
}

} // verus!
