//! The ways in which an operation of this crate can fail.

use vstd::prelude::*;

verus! {

/// Every failure ends the operation that met it; nothing is retried.
#[derive(Clone, Copy, Debug, PartialEq, Eq, Structural)]
pub enum SubError {
    /// A timestamp does not follow the grammar of its dialect, or one of its
    /// fields is out of range.
    MalformedTimestamp,
    /// The block at this 1-based position has no readable timing line.
    MalformedCue(usize),
    /// The input path has no parent or no file name with an extension.
    InvalidPath,
    /// The span reported as a name tag does not hold one.
    MalformedTag,
    /// A shifted time or an accumulated offset does not fit in 64 bits.
    OutOfRange,
    /// The pattern matcher rejected the tag pattern.
    Matcher,
}

} // verus!
