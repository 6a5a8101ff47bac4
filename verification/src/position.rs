use vstd::prelude::*;

verus! {

/// A logical position in the document: `x` is a cell index within a row,
/// `y` is a row index. Positions are ordered first by row, then by column.
#[derive(Debug, Clone, Copy, PartialEq, Eq, Structural)]
pub struct Position {
    pub x: usize,
    pub y: usize,
}

impl Position {
    pub fn new(x: usize, y: usize) -> (r: Position)
        ensures
            r.x == x,
            r.y == y,
    {
        Position { x, y }
    }

    /// Strict order: first by row, then by column.
    pub open spec fn spec_lt(self, other: Position) -> bool {
        self.y < other.y || (self.y == other.y && self.x < other.x)
    }

    pub open spec fn spec_le(self, other: Position) -> bool {
        self.spec_lt(other) || self == other
    }

    pub fn lt(&self, other: &Position) -> (r: bool)
        ensures
            r == self.spec_lt(*other),
    {
        self.y < other.y || (self.y == other.y && self.x < other.x)
    }

    pub fn le(&self, other: &Position) -> (r: bool)
        ensures
            r == self.spec_le(*other),
    {
        self.y < other.y || (self.y == other.y && self.x <= other.x)
    }
}

impl Default for Position {
    fn default() -> (r: Position)
        ensures
            r.x == 0 && r.y == 0,
    {
        Position { x: 0, y: 0 }
    }
}

} // verus!
