//! Classified decode failures. Every failure of the decoder is one of a
//! small closed set of kinds, reported together with the page index and the
//! cursor position at which decoding stopped.

use vstd::prelude::*;

verus! {

/// The kind of a decode failure.
#[derive(Copy, Clone, Debug, PartialEq, Eq, Structural)]
pub enum ErrorKind {
    /// The input holds no `@`, or fewer than three characters precede it.
    MalformedHeader,
    /// One of the three characters before `@` is not a decimal digit.
    InvalidVersion,
    /// A character outside the 64-symbol alphabet stood where an encoded
    /// value was expected.
    InvalidSymbol,
    /// A decoded field-cell value lay outside the valid range of block
    /// kinds.
    InvalidDiscriminant,
    /// A decode step needed more characters than remained, or a field run
    /// extended past the end of the grid.
    OffsetOverrun,
}

/// A decode failure: its kind, the index of the page being decoded when it
/// arose, and the cursor position (in characters, into the stripped payload)
/// at which decoding stopped. Header failures carry page 0 and offset 0.
#[derive(Copy, Clone, Debug, PartialEq, Eq, Structural)]
pub struct DecodeError {
    pub kind: ErrorKind,
    pub page: usize,
    pub offset: usize,
}

} // verus!
