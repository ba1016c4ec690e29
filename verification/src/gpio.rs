//! The two board revisions and the size of their LED matrix.
//!
//! The LEDs are wired as a matrix of row pins and column pins that need not
//! match the visible 5×5 arrangement: the first revision addresses them as
//! three rows of nine columns, the second as five rows of five.
use vstd::prelude::*;

verus! {

/// The number of visible LED columns.
pub const IMAGE_COLS: usize = 5;

/// The number of visible LED rows.
pub const IMAGE_ROWS: usize = 5;

/// The largest number of matrix rows on any revision.
pub const MAX_ROWS: usize = 5;

/// The largest number of matrix columns on any revision.
pub const MAX_COLS: usize = 9;

/// The hardware revision of the board.
#[derive(Clone, Copy, Debug, PartialEq, Eq, Structural)]
pub enum Revision {
    /// micro:bit v1 (nRF51): three matrix rows of nine columns, one GPIO port.
    V1,
    /// micro:bit v2 (nRF52833): five rows of five columns, over two GPIO ports.
    V2,
}

impl Revision {
    /// The number of pins connected to LED rows.
    pub open spec fn rows(self) -> nat {
        match self {
            Revision::V1 => 3,
            Revision::V2 => 5,
        }
    }

    /// The number of pins connected to LED columns.
    pub open spec fn cols(self) -> nat {
        match self {
            Revision::V1 => 9,
            Revision::V2 => 5,
        }
    }

    /// The number of pins connected to LED rows.
    pub fn num_rows(self) -> (n: usize)
        ensures
            n == self.rows(),
            0 < n <= MAX_ROWS,
    {
        match self {
            Revision::V1 => 3,
            Revision::V2 => 5,
        }
    }

    /// The number of pins connected to LED columns.
    pub fn num_cols(self) -> (n: usize)
        ensures
            n == self.cols(),
            0 < n <= MAX_COLS,
    {
        match self {
            Revision::V1 => 9,
            Revision::V2 => 5,
        }
    }
}

} // verus!
