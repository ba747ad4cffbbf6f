//! The constraint checker: whether a cell's value conflicts with its row,
//! its column, or its 3x3 block, and what a fully valid board is.

use vstd::prelude::*;
use vstd::seq_lib::*;
use vstd::set_lib::{lemma_int_range, lemma_len_subset, lemma_subset_equality, set_int_range};
use crate::board::Sudoku;
use crate::coords::Coords;

verus! {

/// The value of the cell at column `x`, row `y` of the row-major board `s`.
pub open spec fn cell_at(s: Seq<u8>, x: int, y: int) -> u8 {
    s[x + 9 * y]
}

/// Whether `(p, q)` lies in the same 3x3 block as `(x, y)`.
pub open spec fn same_block(x: int, y: int, p: int, q: int) -> bool {
    p / 3 == x / 3 && q / 3 == y / 3
}

/// The cell at `(x, y)` is empty, or no other cell of row `y` holds its value.
pub open spec fn row_ok(s: Seq<u8>, x: int, y: int) -> bool {
    cell_at(s, x, y) == 0 || forall|i: int|
        0 <= i < 9 && i != x ==> cell_at(s, i, y) != cell_at(s, x, y)
}

/// The cell at `(x, y)` is empty, or no other cell of column `x` holds its value.
pub open spec fn col_ok(s: Seq<u8>, x: int, y: int) -> bool {
    cell_at(s, x, y) == 0 || forall|j: int|
        0 <= j < 9 && j != y ==> cell_at(s, x, j) != cell_at(s, x, y)
}

/// The cell at `(x, y)` is empty, or no other cell of its block holds its value.
pub open spec fn block_ok(s: Seq<u8>, x: int, y: int) -> bool {
    cell_at(s, x, y) == 0 || forall|p: int, q: int|
        0 <= p < 9 && 0 <= q < 9 && same_block(x, y, p, q) && !(p == x && q == y) ==> cell_at(
            s,
            p,
            q,
        ) != cell_at(s, x, y)
}

/// The cell at `(x, y)` conflicts with no other cell of its row, column or
/// block. An empty cell (value 0) never conflicts with anything.
pub open spec fn consistent_at(s: Seq<u8>, x: int, y: int) -> bool {
    row_ok(s, x, y) && col_ok(s, x, y) && block_ok(s, x, y)
}

/// Every one of the 81 cells is individually consistent.
pub open spec fn fully_consistent(s: Seq<u8>) -> bool {
    forall|x: int, y: int| 0 <= x < 9 && 0 <= y < 9 ==> consistent_at(s, x, y)
}

/// A fully populated, rule-valid board: every cell holds a digit `1..=9`
/// and no cell conflicts with another.
pub open spec fn is_solution(s: Seq<u8>) -> bool {
    &&& s.len() == 81
    &&& forall|i: int| 0 <= i < 81 ==> 1 <= #[trigger] s[i] <= 9
    &&& fully_consistent(s)
}

/// `sol` keeps every placed (nonzero) value of `base` unchanged.
pub open spec fn extends_clues(sol: Seq<u8>, base: Seq<u8>) -> bool {
    forall|i: int| 0 <= i < 81 && base[i] != 0 ==> sol[i] == base[i]
}

/// Some fully populated, rule-valid board completes `s`.
pub open spec fn solvable(s: Seq<u8>) -> bool {
    exists|sol: Seq<u8>| is_solution(sol) && extends_clues(sol, s)
}

impl Sudoku {
    /// Row scan: true if the cell is empty or no other cell of its row
    /// holds the same value.
    pub fn vertical_check(&self, coords: &Coords) -> (r: bool)
        requires
            coords.wf(),
        ensures
            r == row_ok(self@, coords.x as int, coords.y as int),
    {
        let current_value = self.get(&coords);
        if current_value == 0 {
            return true;
        }
        let mut i: u8 = 0;
        while i < 9
            invariant
                i <= 9,
                coords.wf(),
                current_value == cell_at(self@, coords.x as int, coords.y as int),
                current_value != 0,
                forall|k: int|
                    0 <= k < i && k != coords.x as int ==> cell_at(self@, k, coords.y as int)
                        != current_value,
            decreases 9 - i,
        {
            if (i != coords.x) && (self.get(&Coords { x: i, y: coords.y }) == current_value) {
                assert(cell_at(self@, i as int, coords.y as int) == current_value);
                return false;
            }
            i = i + 1;
        }
        true
    }

    /// Column scan: true if the cell is empty or no other cell of its
    /// column holds the same value.
    pub fn horizontal_check(&self, coords: &Coords) -> (r: bool)
        requires
            coords.wf(),
        ensures
            r == col_ok(self@, coords.x as int, coords.y as int),
    {
        let current_value = self.get(&coords);
        if current_value == 0 {
            return true;
        }
        let mut i: u8 = 0;
        while i < 9
            invariant
                i <= 9,
                coords.wf(),
                current_value == cell_at(self@, coords.x as int, coords.y as int),
                current_value != 0,
                forall|k: int|
                    0 <= k < i && k != coords.y as int ==> cell_at(self@, coords.x as int, k)
                        != current_value,
            decreases 9 - i,
        {
            if (i != coords.y) && (self.get(&Coords { x: coords.x, y: i }) == current_value) {
                assert(cell_at(self@, coords.x as int, i as int) == current_value);
                return false;
            }
            i = i + 1;
        }
        true
    }

    /// Block scan: true if the cell is empty or no other cell of its 3x3
    /// block holds the same value.
    pub fn block_check(&self, coords: &Coords) -> (r: bool)
        requires
            coords.wf(),
        ensures
            r == block_ok(self@, coords.x as int, coords.y as int),
    {
        let current_value = self.get(coords);
        if current_value == 0 {
            return true;
        }
        let block_coords = Coords { x: coords.x / 3, y: coords.y / 3 };
        let ghost cx = coords.x as int;
        let ghost cy = coords.y as int;
        let mut i: u8 = 0;
        while i < 3
            invariant
                i <= 3,
                coords.wf(),
                block_coords.x == coords.x / 3,
                block_coords.y == coords.y / 3,
                current_value == cell_at(self@, cx, cy),
                current_value != 0,
                cx == coords.x as int,
                cy == coords.y as int,
                forall|p: int, q: int|
                    0 <= p < 9 && 0 <= q < 9 && same_block(cx, cy, p, q) && !(p == cx && q == cy)
                        && p < 3 * (cx / 3) + i ==> cell_at(self@, p, q) != current_value,
            decreases 3 - i,
        {
            let mut j: u8 = 0;
            while j < 3
                invariant
                    i < 3,
                    j <= 3,
                    coords.wf(),
                    block_coords.x == coords.x / 3,
                    block_coords.y == coords.y / 3,
                    current_value == cell_at(self@, cx, cy),
                    current_value != 0,
                    cx == coords.x as int,
                    cy == coords.y as int,
                    forall|p: int, q: int|
                        0 <= p < 9 && 0 <= q < 9 && same_block(cx, cy, p, q) && !(p == cx && q
                            == cy) && (p < 3 * (cx / 3) + i || (p == 3 * (cx / 3) + i && q < 3 * (
                        cy / 3) + j)) ==> cell_at(self@, p, q) != current_value,
                decreases 3 - j,
            {
                let coords_to_check = Coords {
                    x: block_coords.x * 3 + i,
                    y: block_coords.y * 3 + j,
                };
                if coords_to_check == *coords {
                } else if self.get(&coords_to_check) == current_value {
                    assert(cell_at(self@, 3 * (cx / 3) + i, 3 * (cy / 3) + j) == current_value);
                    assert(same_block(cx, cy, 3 * (cx / 3) + i, 3 * (cy / 3) + j));
                    return false;
                }
                j = j + 1;
            }
            i = i + 1;
        }
        assert forall|p: int, q: int|
            0 <= p < 9 && 0 <= q < 9 && same_block(cx, cy, p, q) && !(p == cx && q
                == cy) implies cell_at(self@, p, q) != current_value by {
            assert(p < 3 * (cx / 3) + 3);
        }
        true
    }

    /// The conjunction of the row, column and block checks at one cell.
    pub fn is_in_rule(&self, coords: &Coords) -> (r: bool)
        requires
            coords.wf(),
        ensures
            r == consistent_at(self@, coords.x as int, coords.y as int),
    {
        if self.vertical_check(coords) && self.horizontal_check(coords) && self.block_check(coords)
        {
            return true;
        }
        false
    }

    /// Whether every one of the 81 cells is individually consistent.
    pub fn is_fully_consistent(&self) -> (r: bool)
        ensures
            r == fully_consistent(self@),
    {
        let mut x: u8 = 0;
        while x < 9
            invariant
                x <= 9,
                forall|p: int, q: int| 0 <= p < x && 0 <= q < 9 ==> consistent_at(self@, p, q),
            decreases 9 - x,
        {
            let mut y: u8 = 0;
            while y < 9
                invariant
                    x < 9,
                    y <= 9,
                    forall|p: int, q: int| 0 <= p < x && 0 <= q < 9 ==> consistent_at(self@, p, q),
                    forall|q: int| 0 <= q < y ==> consistent_at(self@, x as int, q),
                decreases 9 - y,
            {
                if !self.is_in_rule(&Coords { x, y }) {
                    return false;
                }
                y = y + 1;
            }
            x = x + 1;
        }
        true
    }
}

/// An empty cell never conflicts: a cell holding 0 is consistent whatever
/// the rest of the board holds.
pub proof fn lemma_empty_cell_consistent(s: Seq<u8>, x: int, y: int)
    requires
        0 <= x < 9,
        0 <= y < 9,
        cell_at(s, x, y) == 0,
    ensures
        consistent_at(s, x, y),
{
}

/// Nine pairwise distinct digits drawn from `1..=9` cover every digit.
proof fn lemma_nine_distinct_digits_complete(q: Seq<u8>, v: u8)
    requires
        q.len() == 9,
        forall|i: int| 0 <= i < 9 ==> 1 <= #[trigger] q[i] <= 9,
        forall|i: int, j: int| 0 <= i < 9 && 0 <= j < 9 && i != j ==> q[i] != q[j],
        1 <= v <= 9,
    ensures
        exists|i: int| 0 <= i < 9 && q[i] == v,
{
    let qi = Seq::new(9, |k: int| q[k] as int);
    assert(qi.no_duplicates());
    qi.unique_seq_to_set();
    let digits = set_int_range(1, 10);
    lemma_int_range(1, 10);
    assert forall|e: int| qi.to_set().contains(e) implies digits.contains(e) by {
        let k = choose|k: int| 0 <= k < qi.len() && qi[k] == e;
        assert(1 <= q[k] <= 9);
    }
    assert(qi.to_set().subset_of(digits));
    lemma_len_subset(qi.to_set(), digits);
    lemma_subset_equality(qi.to_set(), digits);
    assert(digits.contains(v as int));
    assert(qi.to_set().contains(v as int));
    assert(qi.contains(v as int));
    let k = choose|k: int| 0 <= k < qi.len() && qi[k] == v as int;
    assert(q[k] == v);
}

/// In a fully populated, rule-valid board, every row holds each digit
/// `1..=9` somewhere: each row is a permutation of `{1..9}`.
pub proof fn lemma_solution_row_complete(s: Seq<u8>, y: int, v: u8)
    requires
        is_solution(s),
        0 <= y < 9,
        1 <= v <= 9,
    ensures
        exists|x: int| 0 <= x < 9 && cell_at(s, x, y) == v,
{
    let q = Seq::new(9, |x: int| cell_at(s, x, y));
    assert forall|i: int, j: int| 0 <= i < 9 && 0 <= j < 9 && i != j implies q[i] != q[j] by {
        assert(consistent_at(s, i, y));
        assert(row_ok(s, i, y));
    }
    lemma_nine_distinct_digits_complete(q, v);
    let x = choose|x: int| 0 <= x < 9 && q[x] == v;
    assert(cell_at(s, x, y) == v);
}

/// In a fully populated, rule-valid board, every column holds each digit
/// `1..=9` somewhere: each column is a permutation of `{1..9}`.
pub proof fn lemma_solution_col_complete(s: Seq<u8>, x: int, v: u8)
    requires
        is_solution(s),
        0 <= x < 9,
        1 <= v <= 9,
    ensures
        exists|y: int| 0 <= y < 9 && cell_at(s, x, y) == v,
{
    let q = Seq::new(9, |y: int| cell_at(s, x, y));
    assert forall|i: int, j: int| 0 <= i < 9 && 0 <= j < 9 && i != j implies q[i] != q[j] by {
        assert(consistent_at(s, x, i));
        assert(col_ok(s, x, i));
    }
    lemma_nine_distinct_digits_complete(q, v);
    let y = choose|y: int| 0 <= y < 9 && q[y] == v;
    assert(cell_at(s, x, y) == v);
}

/// In a fully populated, rule-valid board, every 3x3 block holds each digit
/// `1..=9` somewhere: each block is a permutation of `{1..9}`.
pub proof fn lemma_solution_block_complete(s: Seq<u8>, bx: int, by: int, v: u8)
    requires
        is_solution(s),
        0 <= bx < 3,
        0 <= by < 3,
        1 <= v <= 9,
    ensures
        exists|p: int, q: int|
            0 <= p < 9 && 0 <= q < 9 && p / 3 == bx && q / 3 == by && cell_at(s, p, q) == v,
{
    let w = Seq::new(9, |k: int| cell_at(s, 3 * bx + k % 3, 3 * by + k / 3));
    assert forall|i: int, j: int| 0 <= i < 9 && 0 <= j < 9 && i != j implies w[i] != w[j] by {
        let pi = 3 * bx + i % 3;
        let qi = 3 * by + i / 3;
        let pj = 3 * bx + j % 3;
        let qj = 3 * by + j / 3;
        assert(pi / 3 == bx && qi / 3 == by && pj / 3 == bx && qj / 3 == by);
        assert(consistent_at(s, pi, qi));
        assert(same_block(pi, qi, pj, qj));
        assert(!(pj == pi && qj == qi));
        assert(block_ok(s, pi, qi));
    }
    lemma_nine_distinct_digits_complete(w, v);
    let k = choose|k: int| 0 <= k < 9 && w[k] == v;
    let p = 3 * bx + k % 3;
    let q = 3 * by + k / 3;
    assert(cell_at(s, p, q) == v);
    assert(0 <= p < 9 && 0 <= q < 9 && p / 3 == bx && q / 3 == by);
}

} // verus!
