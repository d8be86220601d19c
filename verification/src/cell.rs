//! One lattice site.

use vstd::prelude::*;

verus! {

/// Number of grains at which a cell topples.
pub const CRITICAL: u8 = 4;

/// A point of the lattice that accumulates sand grains.
///
/// `borged` records that the cell has ever received a grain; a cell that
/// toppled back to zero grains stays `borged`, which tells it apart from a
/// cell that was never reached.
#[derive(Clone, Copy, Debug, PartialEq, Eq, Structural)]
pub struct Cell {
    pub grains: u8,
    pub borged: bool,
}

impl Cell {
    /// The untouched cell: no grains, never reached.
    pub fn default() -> (cell: Cell)
        ensures
            cell == (Cell { grains: 0, borged: false }),
    {
        Cell { grains: 0, borged: false }
    }
}

} // verus!
