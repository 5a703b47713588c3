use vstd::prelude::*;
use crate::coordinate::Coordinate;

verus! {

/// A grid of flags, one for each cell of the board and of a border one cell wide around
/// it, so that a step off the board still has a cell.
#[derive(Clone, Debug, PartialEq, Eq)]
pub struct BoolBoard {
    inner: [[bool; 13]; 13],
}

impl BoolBoard {
    /// Whether the grid has a cell for `c`.
    pub open spec fn covers(c: Coordinate) -> bool {
        -1 <= c.x <= 11 && -1 <= c.y <= 11
    }

    /// The flag of the cell at `c`.
    pub closed spec fn at(&self, c: Coordinate) -> bool {
        self.inner[c.y + 1][c.x + 1]
    }

    /// A grid with every flag down.
    pub fn new() -> (b: BoolBoard)
        ensures
            forall|c: Coordinate| BoolBoard::covers(c) ==> !#[trigger] b.at(c),
    {
        BoolBoard { inner: [[false; 13]; 13] }
    }

    /// Takes every flag down.
    pub fn clear(&mut self)
        ensures
            forall|c: Coordinate| BoolBoard::covers(c) ==> !#[trigger] final(self).at(c),
    {
        let mut i: usize = 0;
        while i < 13
            invariant
                i <= 13,
                forall|r: int, q: int| 0 <= r < i && 0 <= q < 13 ==> !#[trigger] self.inner[r][q],
            decreases 13 - i,
        {
            let mut x: usize = 0;
            while x < 13
                invariant
                    i < 13,
                    x <= 13,
                    forall|r: int, q: int|
                        0 <= r < i && 0 <= q < 13 ==> !#[trigger] self.inner[r][q],
                    forall|q: int| 0 <= q < x ==> !#[trigger] self.inner[i as int][q],
                decreases 13 - x,
            {
                self.inner[i][x] = false;
                x += 1;
            }
            i += 1;
        }
    }

    /// The flag of the cell at `index`.
    pub fn get(&self, index: Coordinate) -> (r: bool)
        requires
            BoolBoard::covers(index),
        ensures
            r == self.at(index),
    {
        self.inner[(index.y + 1) as usize][(index.x + 1) as usize]
    }

    /// Sets the flag of the cell at `index`.
    pub fn set(&mut self, index: Coordinate, value: bool)
        requires
            BoolBoard::covers(index),
        ensures
            final(self).at(index) == value,
            forall|c: Coordinate|
                BoolBoard::covers(c) && c != index
                    ==> #[trigger] final(self).at(c) == old(self).at(c),
    {
        self.inner[(index.y + 1) as usize][(index.x + 1) as usize] = value;
    }
}

impl Default for BoolBoard {
    fn default() -> (b: BoolBoard)
        ensures
            forall|c: Coordinate| BoolBoard::covers(c) ==> !#[trigger] b.at(c),
    {
        BoolBoard::new()
    }
}

} // verus!
