//! Errors of the library.

use vstd::prelude::*;

verus! {

/// Why chunks or hash keys could not be built.
#[derive(Clone, Copy, Debug, PartialEq, Eq, Structural)]
pub enum Error {
    /// A chunk has no column of this index.
    ColumnNotFound { index: usize },
    /// The parts of a chunk do not all have as many rows as the chunk.
    LengthMismatch,
    /// A fixed-size key already records as many columns as its null bitmap has bits.
    TooManyColumns,
    /// A value does not fit into what is left of a fixed-size key.
    KeyTooLong,
}

} // verus!
