//! The coordinate model: a (column, row) pair addressing one of the 81 cells,
//! with its row-major linear index and row-major stepping.

use vstd::prelude::*;
use vstd::arithmetic::div_mod::lemma_fundamental_div_mod;

verus! {

/// A cell address: column `x` and row `y`, each in `[0, 8]`.
#[derive(Debug, PartialEq, Eq, Structural, Clone, Copy)]
pub struct Coords {
    pub x: u8,
    pub y: u8,
}

impl Coords {
    /// Both components lie on the board.
    pub open spec fn wf(&self) -> bool {
        self.x <= 8 && self.y <= 8
    }

    /// The row-major linear index of this coordinate: `x + 9 * y`.
    pub open spec fn index(&self) -> int {
        self.x + 9 * self.y
    }

    /// The coordinate whose linear index is `i`.
    pub open spec fn of_linear(i: int) -> Coords {
        Coords { x: (i % 9) as u8, y: (i / 9) as u8 }
    }

    pub fn from(coord_1d: i32) -> (c: Coords)
        requires
            0 <= coord_1d <= 80,
        ensures
            c == Coords::of_linear(coord_1d as int),
            c.wf(),
            c.index() == coord_1d,
    {
        let c = Coords { x: (coord_1d % 9) as u8, y: (coord_1d / 9) as u8 };
        proof {
            lemma_fundamental_div_mod(coord_1d as int, 9);
        }
        c
    }

    pub fn to_int(&self) -> (r: usize)
        requires
            self.wf(),
        ensures
            r == self.index(),
            r <= 80,
    {
        (self.x + self.y * 9) as usize
    }

    /// Step forward in row-major order; `(8, y)` moves to `(0, y + 1)`.
    /// There is no cell after `(8, 8)`, so stepping there is out of range.
    pub fn inc(&mut self)
        requires
            old(self).wf(),
            !(old(self).x == 8 && old(self).y == 8),
        ensures
            final(self).wf(),
            final(self).index() == old(self).index() + 1,
    {
        if self.x == 8 {
            self.x = 0;
            self.y = self.y + 1;
        } else {
            self.x = self.x + 1;
        }
    }

    /// Step backward in row-major order; `(0, y)` moves to `(8, y - 1)`.
    /// There is no cell before `(0, 0)`, so stepping there is out of range.
    pub fn dec(&mut self)
        requires
            old(self).wf(),
            !(old(self).x == 0 && old(self).y == 0),
        ensures
            final(self).wf(),
            final(self).index() == old(self).index() - 1,
    {
        if self.x == 0 {
            self.y = self.y - 1;
            self.x = 8;
        } else {
            self.x = self.x - 1;
        }
    }
}

/// Converting a linear index to a coordinate and back returns the index:
/// for every `i` in `[0, 80]`, `Coords::of_linear(i).index() == i`.
pub proof fn lemma_linear_round_trip(i: int)
    requires
        0 <= i <= 80,
    ensures
        Coords::of_linear(i).wf(),
        Coords::of_linear(i).index() == i,
{
    lemma_fundamental_div_mod(i, 9);
}

} // verus!
