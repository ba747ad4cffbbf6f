//! The puzzle generator: produces a random fully solved board by seeding
//! one row and one column and completing them with the solver, then carves
//! a difficulty-controlled number of cells out to make a playable puzzle.

use vstd::prelude::*;
use crate::board::{
    count_zeros, lemma_count_zeros_none, lemma_count_zeros_update, lemma_count_zeros_zero, Sudoku,
};
use crate::coords::Coords;
use crate::random::{RandomSource, ThreadRandom};
use crate::rules::{consistent_at, extends_clues, is_solution, solvable};
use crate::solver::solve;

verus! {

broadcast use vstd::array::group_array_axioms, crate::board::lemma_sudoku_view_len;

/// Why generating a board failed. Both cases are internal construction
/// defects, never a normal "no puzzle" outcome.
#[derive(Debug, PartialEq, Eq, Structural, Clone, Copy)]
pub enum GenerateError {
    /// While seeding, some cell admitted no value of `1..=9` at all.
    SeedingFailed,
    /// The randomly seeded board admits no completion.
    UnsolvableSeed,
}

/// Whether placing `v` on the cell `(x, y)` of `s` leaves that cell
/// consistent with everything already on the board.
pub open spec fn placement_consistent(s: Seq<u8>, x: int, y: int, v: u8) -> bool {
    consistent_at(s.update(x + 9 * y, v), x, y)
}

impl Sudoku {
    /// Draws random candidates from a shrinking pool of `{1..9}` until one
    /// keeps the cell at `(x, y)` consistent with everything placed so far.
    /// If every value conflicts, the board is left unchanged and the
    /// exhaustion is reported as a seeding failure.
    #[verifier::loop_isolation(false)]
    pub fn set_random_number<R: RandomSource>(&mut self, x: u8, y: u8, rng: &mut R) -> (r: Result<
        (),
        GenerateError,
    >)
        requires
            old(self).wf(),
            x <= 8,
            y <= 8,
        ensures
            final(self).wf(),
            match r {
                Ok(()) => {
                    &&& forall|i: int|
                        0 <= i < 81 && i != x + 9 * y ==> final(self)@[i] == old(self)@[i]
                    &&& 1 <= final(self)@[x + 9 * y] <= 9
                    &&& consistent_at(final(self)@, x as int, y as int)
                },
                Err(e) => {
                    &&& e == GenerateError::SeedingFailed
                    &&& final(self)@ == old(self)@
                    &&& forall|v: u8|
                        1 <= v <= 9 ==> !placement_consistent(old(self)@, x as int, y as int, v)
                },
            },
    {
        let c = Coords { x, y };
        let prev = self.get(&c);
        let ghost s0 = old(self)@;
        let ghost idx = x + 9 * y;
        let mut possibilities: Vec<u8> = Vec::new();
        let mut d: u8 = 1;
        while d <= 9
            invariant
                1 <= d <= 10,
                possibilities@.len() == d - 1,
                forall|k: int| 0 <= k < d - 1 ==> #[trigger] possibilities@[k] == k + 1,
            decreases 10 - d,
        {
            possibilities.push(d);
            d = d + 1;
        }
        proof {
            assert forall|v: u8| 1 <= v <= 9 implies possibilities@.contains(v) by {
                assert(possibilities@[v - 1] == v);
            }
        }
        while possibilities.len() > 0
            invariant
                self.wf(),
                forall|i: int| 0 <= i < 81 && i != idx ==> self@[i] == s0[i],
                possibilities@.no_duplicates(),
                forall|k: int|
                    0 <= k < possibilities@.len() ==> 1 <= #[trigger] possibilities@[k] <= 9,
                forall|v: u8|
                    1 <= v <= 9 && !possibilities@.contains(v) ==> !placement_consistent(
                        s0,
                        x as int,
                        y as int,
                        v,
                    ),
            decreases possibilities@.len(),
        {
            let chosen = rng.pick(possibilities.len());
            let val = possibilities[chosen];
            self.set(&c, val);
            proof {
                assert(self@ =~= s0.update(idx, val));
            }
            if self.is_in_rule(&c) {
                return Ok(());
            }
            proof {
                assert(!placement_consistent(s0, x as int, y as int, val));
            }
            let ghost oldp = possibilities@;
            possibilities.remove(chosen);
            proof {
                assert forall|k: int| 0 <= k < possibilities@.len() implies #[trigger] possibilities@[k]
                    == (if k < chosen {
                    oldp[k]
                } else {
                    oldp[k + 1]
                }) by {}
                assert forall|v: u8|
                    1 <= v <= 9 && !possibilities@.contains(v) implies !placement_consistent(
                    s0,
                    x as int,
                    y as int,
                    v,
                ) by {
                    if v != val && oldp.contains(v) {
                        let k = choose|k: int| 0 <= k < oldp.len() && oldp[k] == v;
                        if k < chosen {
                            assert(possibilities@[k] == v);
                        } else {
                            assert(possibilities@[k - 1] == v);
                        }
                        assert(possibilities@.contains(v));
                    }
                }
            }
        }
        self.set(&c, prev);
        proof {
            assert(self@ =~= s0);
            assert forall|v: u8| 1 <= v <= 9 implies !placement_consistent(
                s0,
                x as int,
                y as int,
                v,
            ) by {
                assert(!possibilities@.contains(v));
            }
        }
        Err(GenerateError::SeedingFailed)
    }
}

/// Builds a fully solved board without brute-forcing from empty: randomly
/// seeds the nine cells of row 1 and the nine cells of column 1, then runs
/// the solver to complete the remaining cells. Either step failing is an
/// unrecoverable generation failure, reported as an explicit error.
#[verifier::loop_isolation(false)]
pub fn generate_solved<R: RandomSource>(rng: &mut R) -> (r: Result<Sudoku, GenerateError>)
    ensures
        r matches Ok(s) ==> s.wf() && is_solution(s@),
{
    let mut sudoku = Sudoku::from([0u8; 81]);
    let mut x: u8 = 0;
    while x < 9
        invariant
            x <= 9,
            sudoku.wf(),
        decreases 9 - x,
    {
        match sudoku.set_random_number(x, 1, rng) {
            Ok(()) => {},
            Err(e) => {
                return Err(e);
            },
        }
        x = x + 1;
    }
    let mut y: u8 = 0;
    while y < 9
        invariant
            y <= 9,
            sudoku.wf(),
        decreases 9 - y,
    {
        match sudoku.set_random_number(1, y, rng) {
            Ok(()) => {},
            Err(e) => {
                return Err(e);
            },
        }
        y = y + 1;
    }
    match solve(&sudoku) {
        None => Err(GenerateError::UnsolvableSeed),
        Some(solved) => Ok(solved),
    }
}

impl Sudoku {
    /// An all-zero board, or, when `random` is set, a freshly generated
    /// fully solved board drawn from the thread-local randomness source.
    pub fn new(random: bool) -> (r: Result<Sudoku, GenerateError>)
        ensures
            match r {
                Ok(s) => {
                    &&& s.wf()
                    &&& random ==> is_solution(s@)
                    &&& !random ==> forall|i: int| 0 <= i < 81 ==> s@[i] == 0
                },
                Err(_) => random,
            },
    {
        if !random {
            return Ok(Sudoku::from([0u8; 81]));
        }
        let mut rng = ThreadRandom::new();
        generate_solved(&mut rng)
    }

    /// Blanks `cells_to_remove` distinct cells, chosen uniformly without
    /// replacement, on a copy of this board. At most 74 cells may be
    /// removed, so at least 7 clues always remain; the kept cells are
    /// copied verbatim.
    #[verifier::loop_isolation(false)]
    pub fn carve<R: RandomSource>(self, cells_to_remove: usize, rng: &mut R) -> (r: Sudoku)
        requires
            self.wf(),
            cells_to_remove <= 74,
        ensures
            r.wf(),
            forall|i: int| 0 <= i < 81 ==> r@[i] == self@[i] || r@[i] == 0,
            cells_to_remove == 0 ==> r@ == self@,
            count_zeros(self@) == 0 ==> count_zeros(r@) == cells_to_remove,
    {
        let mut solved_sudoku = self;
        let ghost s0 = solved_sudoku@;
        let mut numbers: Vec<i32> = Vec::new();
        let mut i: i32 = 0;
        while i < 81
            invariant
                0 <= i <= 81,
                numbers@.len() == i as int,
                forall|k: int| 0 <= k < i as int ==> #[trigger] numbers@[k] == k,
            decreases 81 - i,
        {
            numbers.push(i);
            i = i + 1;
        }
        let mut removed: usize = 0;
        while removed < cells_to_remove
            invariant
                removed <= cells_to_remove,
                numbers@.len() == 81 - removed,
                numbers@.no_duplicates(),
                forall|k: int| 0 <= k < numbers@.len() ==> 0 <= #[trigger] numbers@[k] <= 80,
                solved_sudoku.wf(),
                forall|k: int|
                    0 <= k < numbers@.len() ==> solved_sudoku@[(#[trigger] numbers@[k]) as int]
                        == s0[numbers@[k] as int],
                forall|j: int| 0 <= j < 81 ==> solved_sudoku@[j] == s0[j] || solved_sudoku@[j] == 0,
                removed == 0 ==> solved_sudoku@ == s0,
                count_zeros(s0) == 0 ==> count_zeros(solved_sudoku@) == removed,
            decreases cells_to_remove - removed,
        {
            let num_choice = rng.pick(numbers.len());
            let coords_1d = numbers[num_choice];
            let coords = Coords::from(coords_1d);
            let ghost oldn = numbers@;
            numbers.remove(num_choice);
            proof {
                assert forall|k: int| 0 <= k < numbers@.len() implies #[trigger] numbers@[k] == (
                if k < num_choice {
                    oldn[k]
                } else {
                    oldn[k + 1]
                }) by {}
                assert forall|k: int|
                    0 <= k < numbers@.len() implies #[trigger] numbers@[k] != coords_1d as int by {
                    if k < num_choice {
                        assert(oldn[k] != oldn[num_choice as int]);
                    } else {
                        assert(oldn[k + 1] != oldn[num_choice as int]);
                    }
                }
                if count_zeros(s0) == 0 {
                    lemma_count_zeros_zero(s0);
                    assert(s0[coords_1d as int] != 0);
                    assert(solved_sudoku@[coords_1d as int] == s0[coords_1d as int]);
                    lemma_count_zeros_update(solved_sudoku@, coords_1d as int, 0);
                }
            }
            solved_sudoku.set(&coords, 0);
            removed = removed + 1;
        }
        solved_sudoku
    }

    /// Solves this board and carves the completed board into a playable
    /// puzzle; a board that admits no completion comes back unchanged
    /// instead of being carved.
    pub fn get_playable_sudoku<R: RandomSource>(self, cells_to_remove: usize, rng: &mut R) -> (r:
        Sudoku)
        requires
            self.wf(),
            cells_to_remove <= 74,
        ensures
            r.wf(),
            !solvable(self@) ==> r@ == self@,
            solvable(self@) ==> exists|sol: Seq<u8>|
                is_solution(sol) && extends_clues(sol, self@) && (forall|i: int|
                    0 <= i < 81 ==> r@[i] == sol[i] || r@[i] == 0) && count_zeros(r@)
                    == cells_to_remove,
    {
        let solved_sudoku = solve(&self);
        match solved_sudoku {
            None => self,
            Some(solved_board) => {
                proof {
                    lemma_count_zeros_none(solved_board@);
                }
                let ghost sol = solved_board@;
                let r = solved_board.carve(cells_to_remove, rng);
                proof {
                    assert(is_solution(sol) && extends_clues(sol, self@) && (forall|i: int|
                        0 <= i < 81 ==> r@[i] == sol[i] || r@[i] == 0) && count_zeros(r@)
                        == cells_to_remove);
                }
                r
            },
        }
    }
}

} // verus!
