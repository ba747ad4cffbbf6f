//! The backtracking solver: completes a partially filled board into a fully
//! valid one, visiting cells in row-major order and trying candidate values
//! in ascending order, or determines that no completion exists.

use vstd::prelude::*;
use crate::board::Sudoku;
use crate::coords::Coords;
use crate::rules::{
    block_ok, cell_at, col_ok, consistent_at, extends_clues, fully_consistent, is_solution,
    row_ok, same_block, solvable,
};

verus! {

broadcast use vstd::array::group_array_axioms, crate::board::lemma_sudoku_view_len;

/// Placing a nonzero value on an empty cell keeps the whole board
/// consistent, provided the placed cell itself checks out.
proof fn lemma_place_preserves_consistency(s: Seq<u8>, x: int, y: int, v: u8)
    requires
        s.len() == 81,
        0 <= x < 9,
        0 <= y < 9,
        v != 0,
        fully_consistent(s),
        cell_at(s, x, y) == 0,
        consistent_at(s.update(x + 9 * y, v), x, y),
    ensures
        fully_consistent(s.update(x + 9 * y, v)),
{
    let s2 = s.update(x + 9 * y, v);
    assert forall|p: int, q: int| 0 <= p < 9 && 0 <= q < 9 implies consistent_at(s2, p, q) by {
        if !(p == x && q == y) {
            assert(p + 9 * q != x + 9 * y);
            assert(cell_at(s2, p, q) == cell_at(s, p, q));
            if cell_at(s2, p, q) != 0 {
                let v0 = cell_at(s2, p, q);
                assert(consistent_at(s, p, q));
                assert forall|i: int| 0 <= i < 9 && i != p implies cell_at(s2, i, q) != v0 by {
                    if i == x && q == y {
                        assert(cell_at(s2, p, y) == v0);
                        assert(row_ok(s2, x, y));
                    } else {
                        assert(i + 9 * q != x + 9 * y);
                        assert(cell_at(s2, i, q) == cell_at(s, i, q));
                        assert(row_ok(s, p, q));
                    }
                }
                assert forall|j: int| 0 <= j < 9 && j != q implies cell_at(s2, p, j) != v0 by {
                    if p == x && j == y {
                        assert(cell_at(s2, x, q) == v0);
                        assert(col_ok(s2, x, y));
                    } else {
                        assert(p + 9 * j != x + 9 * y);
                        assert(cell_at(s2, p, j) == cell_at(s, p, j));
                        assert(col_ok(s, p, q));
                    }
                }
                assert forall|p2: int, q2: int|
                    0 <= p2 < 9 && 0 <= q2 < 9 && same_block(p, q, p2, q2) && !(p2 == p && q2
                        == q) implies cell_at(s2, p2, q2) != v0 by {
                    if p2 == x && q2 == y {
                        assert(same_block(x, y, p, q));
                        assert(block_ok(s2, x, y));
                    } else {
                        assert(p2 + 9 * q2 != x + 9 * y);
                        assert(cell_at(s2, p2, q2) == cell_at(s, p2, q2));
                        assert(block_ok(s, p, q));
                    }
                }
                assert(row_ok(s2, p, q));
                assert(col_ok(s2, p, q));
                assert(block_ok(s2, p, q));
            }
        }
    }
}

/// Emptying one cell keeps the whole board consistent.
proof fn lemma_clear_preserves_consistency(s: Seq<u8>, x: int, y: int)
    requires
        s.len() == 81,
        0 <= x < 9,
        0 <= y < 9,
        fully_consistent(s),
    ensures
        fully_consistent(s.update(x + 9 * y, 0)),
{
    let s2 = s.update(x + 9 * y, 0);
    assert forall|p: int, q: int| 0 <= p < 9 && 0 <= q < 9 implies consistent_at(s2, p, q) by {
        if !(p == x && q == y) {
            assert(p + 9 * q != x + 9 * y);
            assert(cell_at(s2, p, q) == cell_at(s, p, q));
            if cell_at(s2, p, q) != 0 {
                let v0 = cell_at(s2, p, q);
                assert(consistent_at(s, p, q));
                assert forall|i: int| 0 <= i < 9 && i != p implies cell_at(s2, i, q) != v0 by {
                    if !(i == x && q == y) {
                        assert(i + 9 * q != x + 9 * y);
                        assert(cell_at(s2, i, q) == cell_at(s, i, q));
                        assert(row_ok(s, p, q));
                    }
                }
                assert forall|j: int| 0 <= j < 9 && j != q implies cell_at(s2, p, j) != v0 by {
                    if !(p == x && j == y) {
                        assert(p + 9 * j != x + 9 * y);
                        assert(cell_at(s2, p, j) == cell_at(s, p, j));
                        assert(col_ok(s, p, q));
                    }
                }
                assert forall|p2: int, q2: int|
                    0 <= p2 < 9 && 0 <= q2 < 9 && same_block(p, q, p2, q2) && !(p2 == p && q2
                        == q) implies cell_at(s2, p2, q2) != v0 by {
                    if !(p2 == x && q2 == y) {
                        assert(p2 + 9 * q2 != x + 9 * y);
                        assert(cell_at(s2, p2, q2) == cell_at(s, p2, q2));
                        assert(block_ok(s, p, q));
                    }
                }
                assert(row_ok(s2, p, q));
                assert(col_ok(s2, p, q));
                assert(block_ok(s2, p, q));
            }
        }
    }
}

/// A board whose placed values already conflict has no completion.
proof fn lemma_inconsistent_not_solvable(s: Seq<u8>)
    requires
        s.len() == 81,
        !fully_consistent(s),
    ensures
        !solvable(s),
{
    if solvable(s) {
        let sol = choose|sol: Seq<u8>| is_solution(sol) && extends_clues(sol, s);
        let (x, y): (int, int) = choose|x: int, y: int|
            0 <= x < 9 && 0 <= y < 9 && !consistent_at(s, x, y);
        let v = cell_at(s, x, y);
        assert(v != 0);
        assert(cell_at(sol, x, y) == v);
        assert(consistent_at(sol, x, y));
        if !row_ok(s, x, y) {
            assert(exists|i: int| 0 <= i < 9 && i != x && cell_at(s, i, y) == v);
            let i = choose|i: int| 0 <= i < 9 && i != x && cell_at(s, i, y) == v;
            assert(cell_at(sol, i, y) == v);
            assert(row_ok(sol, x, y));
            assert(false);
        } else if !col_ok(s, x, y) {
            assert(exists|j: int| 0 <= j < 9 && j != y && cell_at(s, x, j) == v);
            let j = choose|j: int| 0 <= j < 9 && j != y && cell_at(s, x, j) == v;
            assert(cell_at(sol, x, j) == v);
            assert(col_ok(sol, x, y));
            assert(false);
        } else {
            assert(!block_ok(s, x, y));
            assert(exists|p: int, q: int|
                0 <= p < 9 && 0 <= q < 9 && same_block(x, y, p, q) && !(p == x && q == y)
                    && cell_at(s, p, q) == v);
            let (p, q): (int, int) = choose|p: int, q: int|
                0 <= p < 9 && 0 <= q < 9 && same_block(x, y, p, q) && !(p == x && q == y)
                    && cell_at(s, p, q) == v;
            assert(cell_at(sol, p, q) == v);
            assert(block_ok(sol, x, y));
            assert(false);
        }
    }
}

/// If trying value `v` on the empty cell `(x, y)` fails the consistency
/// check, then no completion of the board places `v` there.
proof fn lemma_blocked_value(w: Seq<u8>, x: int, y: int, v: u8, sol: Seq<u8>)
    requires
        w.len() == 81,
        0 <= x < 9,
        0 <= y < 9,
        v != 0,
        cell_at(w, x, y) == 0,
        !consistent_at(w.update(x + 9 * y, v), x, y),
        is_solution(sol),
        extends_clues(sol, w),
    ensures
        sol[x + 9 * y] != v,
{
    if sol[x + 9 * y] == v {
        let w2 = w.update(x + 9 * y, v);
        assert(cell_at(w2, x, y) == v);
        assert(cell_at(sol, x, y) == v);
        assert(consistent_at(sol, x, y));
        if !row_ok(w2, x, y) {
            assert(exists|i: int| 0 <= i < 9 && i != x && cell_at(w2, i, y) == v);
            let i = choose|i: int| 0 <= i < 9 && i != x && cell_at(w2, i, y) == v;
            assert(i + 9 * y != x + 9 * y);
            assert(cell_at(w, i, y) == v);
            assert(cell_at(sol, i, y) == v);
            assert(row_ok(sol, x, y));
            assert(false);
        } else if !col_ok(w2, x, y) {
            assert(exists|j: int| 0 <= j < 9 && j != y && cell_at(w2, x, j) == v);
            let j = choose|j: int| 0 <= j < 9 && j != y && cell_at(w2, x, j) == v;
            assert(x + 9 * j != x + 9 * y);
            assert(cell_at(w, x, j) == v);
            assert(cell_at(sol, x, j) == v);
            assert(col_ok(sol, x, y));
            assert(false);
        } else {
            assert(!block_ok(w2, x, y));
            assert(exists|p: int, q: int|
                0 <= p < 9 && 0 <= q < 9 && same_block(x, y, p, q) && !(p == x && q == y)
                    && cell_at(w2, p, q) == v);
            let (p, q): (int, int) = choose|p: int, q: int|
                0 <= p < 9 && 0 <= q < 9 && same_block(x, y, p, q) && !(p == x && q == y)
                    && cell_at(w2, p, q) == v;
            assert(p + 9 * q != x + 9 * y);
            assert(cell_at(w, p, q) == v);
            assert(cell_at(sol, p, q) == v);
            assert(block_ok(sol, x, y));
            assert(false);
        }
    }
}

/// Depth-first search from cell `idx` on. Cells before `idx` are already
/// filled; cells from `idx` on still hold the input values. On success the
/// working board is a full solution; on failure it is left as it was and no
/// completion of it exists.
#[verifier::loop_isolation(false)]
fn solve_rec(work: &mut Sudoku, orig: &Sudoku, idx: usize) -> (found: bool)
    requires
        orig.wf(),
        old(work).wf(),
        idx <= 81,
        fully_consistent(old(work)@),
        forall|i: int| idx <= i < 81 ==> old(work)@[i] == orig@[i],
        extends_clues(old(work)@, orig@),
        forall|i: int| 0 <= i < idx ==> old(work)@[i] != 0,
    ensures
        final(work).wf(),
        extends_clues(final(work)@, orig@),
        found ==> is_solution(final(work)@),
        found ==> extends_clues(final(work)@, old(work)@),
        !found ==> final(work)@ == old(work)@,
        !found ==> !solvable(old(work)@),
    decreases 81 - idx,
{
    if idx == 81 {
        proof {
            assert(work@.len() == 81);
            assert(forall|i: int| 0 <= i < 81 ==> 1 <= #[trigger] work@[i] <= 9);
            assert(is_solution(work@));
        }
        return true;
    }
    let c = Coords::from(idx as i32);
    let clue = orig.get(&c);
    if clue != 0 {
        let found = solve_rec(work, orig, idx + 1);
        return found;
    }
    let ghost w0 = work@;
    let ghost cx = c.x as int;
    let ghost cy = c.y as int;
    let mut v: u8 = 1;
    while v <= 9
        invariant
            1 <= v <= 10,
            c.wf(),
            cx == c.x as int,
            cy == c.y as int,
            cx + 9 * cy == idx,
            idx < 81,
            orig.wf(),
            work.wf(),
            w0.len() == 81,
            w0[idx as int] == 0,
            orig@[idx as int] == 0,
            fully_consistent(w0),
            work@ == w0.update(idx as int, (v - 1) as u8),
            forall|i: int| idx <= i < 81 ==> w0[i] == orig@[i],
            extends_clues(w0, orig@),
            forall|i: int| 0 <= i < idx ==> w0[i] != 0,
            forall|sol: Seq<u8>|
                is_solution(sol) && #[trigger] extends_clues(sol, w0) ==> sol[idx as int] >= v,
        decreases 10 - v,
    {
        work.set(&c, v);
        proof {
            assert(work@ =~= w0.update(idx as int, v));
        }
        if work.is_in_rule(&c) {
            proof {
                lemma_place_preserves_consistency(w0, cx, cy, v);
                assert(fully_consistent(work@));
                assert forall|i: int| 0 <= i < 81 && orig@[i] != 0 implies work@[i]
                    == orig@[i] by {
                    assert(i != idx);
                }
            }
            let found = solve_rec(work, orig, idx + 1);
            if found {
                proof {
                    assert forall|i: int| 0 <= i < 81 && w0[i] != 0 implies work@[i] == w0[i] by {
                        assert(i != idx);
                        assert(w0.update(idx as int, v)[i] == w0[i]);
                    }
                }
                return true;
            }
            proof {
                assert(work@ == w0.update(idx as int, v));
                assert(!solvable(w0.update(idx as int, v)));
                assert forall|sol: Seq<u8>|
                    is_solution(sol) && #[trigger] extends_clues(sol, w0) implies sol[idx as int]
                    >= v + 1 by {
                    if sol[idx as int] == v {
                        let w1 = w0.update(idx as int, v);
                        assert forall|i: int| 0 <= i < 81 && w1[i] != 0 implies sol[i]
                            == w1[i] by {
                            if i != idx {
                                assert(w1[i] == w0[i]);
                            }
                        }
                        assert(extends_clues(sol, w1));
                        assert(solvable(w1));
                        assert(false);
                    }
                }
            }
        } else {
            proof {
                assert(!consistent_at(w0.update(cx + 9 * cy, v), cx, cy));
                assert forall|sol: Seq<u8>|
                    is_solution(sol) && #[trigger] extends_clues(sol, w0) implies sol[idx as int]
                    >= v + 1 by {
                    lemma_blocked_value(w0, cx, cy, v, sol);
                }
            }
        }
        v = v + 1;
    }
    work.set(&c, 0);
    proof {
        assert(work@ =~= w0);
        assert(!solvable(w0)) by {
            if solvable(w0) {
                let sol = choose|sol: Seq<u8>| is_solution(sol) && extends_clues(sol, w0);
                assert(sol[idx as int] >= 10);
                assert(1 <= sol[idx as int] <= 9);
                assert(false);
            }
        }
    }
    false
}

/// Solves an arbitrary board. Returns the completed board exactly when some
/// completion exists; a board whose clues already conflict, and any other
/// board without a completion, yields `None`. A board that is already a full
/// solution comes back unchanged.
pub fn solve(sudoku: &Sudoku) -> (r: Option<Sudoku>)
    requires
        sudoku.wf(),
    ensures
        r is Some <==> solvable(sudoku@),
        r matches Some(sol) ==> sol.wf() && is_solution(sol@) && extends_clues(sol@, sudoku@),
        !fully_consistent(sudoku@) ==> r is None,
        is_solution(sudoku@) ==> (r matches Some(sol) && sol@ == sudoku@),
{
    if !sudoku.is_fully_consistent() {
        proof {
            lemma_inconsistent_not_solvable(sudoku@);
        }
        return None;
    }
    let mut work = Sudoku::from(sudoku.to_array());
    proof {
        assert(extends_clues(work@, sudoku@));
    }
    let found = solve_rec(&mut work, sudoku, 0);
    if found {
        proof {
            assert(is_solution(work@) && extends_clues(work@, sudoku@));
            assert(solvable(sudoku@));
            if is_solution(sudoku@) {
                assert forall|i: int| 0 <= i < 81 implies work@[i] == sudoku@[i] by {
                    assert(sudoku@[i] != 0);
                }
                assert(work@ =~= sudoku@);
            }
        }
        Some(work)
    } else {
        proof {
            assert(!solvable(sudoku@));
            if is_solution(sudoku@) {
                assert(extends_clues(sudoku@, sudoku@));
                assert(solvable(sudoku@));
                assert(false);
            }
        }
        None
    }
}

} // verus!
