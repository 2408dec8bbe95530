//! The ways in which a request to the engine can be turned down.

use vstd::prelude::*;

verus! {

/// Why the engine refused a request.
#[derive(Debug, Clone, Copy, PartialEq, Eq, Structural)]
pub enum WorldError {
    /// A grid needs at least one column and one row.
    EmptyGrid,
    /// The number of cells does not fit the machine's address range.
    TooLarge,
    /// The pixel buffer does not hold exactly one entry per cell.
    BufferSize,
}

} // verus!
