use vstd::prelude::*;

verus! {

/// Number of squares along each side of the board.
pub const BOARD_SIZE: i32 = 8;

/// Both components lie in `[0, 7]`.
pub open spec fn in_bounds_spec(x: int, y: int) -> bool {
    0 <= x < 8 && 0 <= y < 8
}

/// Position of square `(x, y)` in the board's flat storage (column-major).
pub open spec fn square_index(x: int, y: int) -> int {
    x * 8 + y
}

/// A square of the board: column `x`, row `y`. Row 0 is Black's back rank,
/// row 7 is White's.
#[derive(Clone, Copy, Debug, PartialEq, Eq, Hash, Structural)]
pub struct GridCoords {
    pub x: i32,
    pub y: i32,
}

impl GridCoords {
    pub open spec fn spec_in_bounds(&self) -> bool {
        in_bounds_spec(self.x as int, self.y as int)
    }

    /// The coordinates as the pair stored in a `CoordSet`.
    pub open spec fn pair(&self) -> (i32, i32) {
        (self.x, self.y)
    }

    pub fn new(x: i32, y: i32) -> (r: Self)
        ensures
            r.x == x,
            r.y == y,
    {
        GridCoords { x, y }
    }

    /// True when the square lies on the board.
    pub fn in_bounds(&self) -> (r: bool)
        ensures
            r == self.spec_in_bounds(),
    {
        self.x >= 0 && self.x < BOARD_SIZE && self.y >= 0 && self.y < BOARD_SIZE
    }
}

} // verus!
