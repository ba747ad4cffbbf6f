//! The board: an ordered, row-major sequence of 81 cell values, each in
//! `[0, 9]`; `0` means an empty cell, `1..=9` a placed digit.

use vstd::prelude::*;
use crate::coords::Coords;

verus! {

broadcast use vstd::array::group_array_axioms;

/// A 9x9 board. A `Sudoku` is a plain value: copying it duplicates the grid.
#[derive(Debug, Clone)]
pub struct Sudoku {
    pub(crate) board: [u8; 81],
}

impl View for Sudoku {
    type V = Seq<u8>;

    closed spec fn view(&self) -> Seq<u8> {
        self.board@
    }
}

/// The view of any board has exactly 81 cells.
pub broadcast proof fn lemma_sudoku_view_len(s: &Sudoku)
    ensures
        (#[trigger] s@).len() == 81,
{
}

impl Sudoku {
    /// Every cell value lies in the domain `[0, 9]`.
    pub open spec fn wf(&self) -> bool {
        forall|i: int| 0 <= i < 81 ==> self@[i] <= 9
    }

    /// Wraps an externally supplied grid. Every value must already be in
    /// the cell domain `[0, 9]`.
    pub fn from(board: [u8; 81]) -> (s: Sudoku)
        requires
            forall|i: int| 0 <= i < 81 ==> board@[i] <= 9,
        ensures
            s@ == board@,
            s.wf(),
    {
        Sudoku { board }
    }

    pub fn board(&self) -> (r: &[u8; 81])
        ensures
            r@ == self@,
    {
        &self.board
    }

    pub fn get(&self, coords: &Coords) -> (r: u8)
        requires
            coords.wf(),
        ensures
            r == self@[coords.index()],
    {
        self.board[coords.to_int()]
    }

    pub fn set(&mut self, coords: &Coords, value: u8)
        requires
            coords.wf(),
            value <= 9,
        ensures
            final(self)@ == old(self)@.update(coords.index(), value),
            old(self).wf() ==> final(self).wf(),
    {
        let i = coords.to_int();
        self.board[i] = value;
        proof {
            if old(self).wf() {
                assert forall|j: int| 0 <= j < 81 implies self@[j] <= 9 by {
                    if j != coords.index() {
                        assert(self@[j] == old(self)@[j]);
                    }
                }
            }
        }
    }

    pub fn to_array(&self) -> (r: [u8; 81])
        ensures
            r@ == self@,
    {
        self.board
    }

    pub fn to_vector(&self) -> (r: Vec<i32>)
        ensures
            r@.len() == 81,
            forall|i: int| 0 <= i < 81 ==> r@[i] == self@[i] as i32,
    {
        let mut result: Vec<i32> = Vec::new();
        let mut i: usize = 0;
        while i < 81
            invariant
                i <= 81,
                result@.len() == i,
                forall|j: int| 0 <= j < i ==> result@[j] == self@[j] as i32,
            decreases 81 - i,
        {
            result.push(self.board[i] as i32);
            i = i + 1;
        }
        result
    }
}

/// How many cells of `s` are empty.
pub open spec fn count_zeros(s: Seq<u8>) -> nat
    decreases s.len(),
{
    if s.len() == 0 {
        0
    } else {
        count_zeros(s.drop_last()) + (if s.last() == 0 {
            1nat
        } else {
            0nat
        })
    }
}

/// Overwriting one cell changes the number of empty cells by exactly the
/// difference between the old and the new value being zero.
pub proof fn lemma_count_zeros_update(s: Seq<u8>, i: int, v: u8)
    requires
        0 <= i < s.len(),
    ensures
        count_zeros(s.update(i, v)) + (if s[i] == 0 {
            1nat
        } else {
            0nat
        }) == count_zeros(s) + (if v == 0 {
            1nat
        } else {
            0nat
        }),
    decreases s.len(),
{
    if i == s.len() - 1 {
        assert(s.update(i, v).drop_last() =~= s.drop_last());
    } else {
        assert(s.update(i, v).drop_last() =~= s.drop_last().update(i, v));
        assert(s.update(i, v).last() == s.last());
        lemma_count_zeros_update(s.drop_last(), i, v);
    }
}

/// A board with every cell nonzero has no empty cells.
pub proof fn lemma_count_zeros_none(s: Seq<u8>)
    requires
        forall|i: int| 0 <= i < s.len() ==> s[i] != 0,
    ensures
        count_zeros(s) == 0,
    decreases s.len(),
{
    if s.len() > 0 {
        assert forall|i: int| 0 <= i < s.drop_last().len() implies s.drop_last()[i] != 0 by {
            assert(s.drop_last()[i] == s[i]);
        }
        lemma_count_zeros_none(s.drop_last());
    }
}

/// A board with no empty cells has every cell nonzero.
pub proof fn lemma_count_zeros_zero(s: Seq<u8>)
    requires
        count_zeros(s) == 0,
    ensures
        forall|i: int| 0 <= i < s.len() ==> s[i] != 0,
    decreases s.len(),
{
    if s.len() > 0 {
        lemma_count_zeros_zero(s.drop_last());
        assert forall|i: int| 0 <= i < s.len() implies s[i] != 0 by {
            if i < s.len() - 1 {
                assert(s.drop_last()[i] == s[i]);
            }
        }
    }
}

} // verus!
