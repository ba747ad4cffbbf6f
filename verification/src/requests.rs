//! The external boundary: the two logical operations a request layer
//! consumes, over flat row-major sequences of 81 integers — build a
//! playable puzzle, and solve a supplied board.

use vstd::prelude::*;
use crate::board::{count_zeros, lemma_count_zeros_none, Sudoku};
use crate::generator::{generate_solved, GenerateError};
use crate::random::RandomSource;
use crate::rules::{extends_clues, is_solution, solvable};
use crate::solver::solve;

verus! {

broadcast use vstd::array::group_array_axioms, crate::board::lemma_sudoku_view_len;

/// Why a supplied sequence was rejected at the boundary.
#[derive(Debug, PartialEq, Eq, Structural, Clone, Copy)]
pub enum RequestError {
    /// The sequence does not hold exactly 81 values.
    WrongLength,
    /// Some value lies outside `[0, 9]`.
    ValueOutOfRange,
}

/// The board that a flat sequence of 81 in-range integers denotes.
pub open spec fn board_of(values: Seq<i32>) -> Seq<u8> {
    Seq::new(81, |i: int| values[i] as u8)
}

/// Solves a board supplied as a flat sequence. A sequence of the wrong
/// length or with an out-of-range value is rejected with the matching
/// error; a well-formed board that admits no completion is echoed back
/// unchanged; otherwise the completed board comes back, flattened.
#[verifier::loop_isolation(false)]
pub fn solve_request(values: &Vec<i32>) -> (r: Result<Vec<i32>, RequestError>)
    ensures
        match r {
            Err(RequestError::WrongLength) => values@.len() != 81,
            Err(RequestError::ValueOutOfRange) => values@.len() == 81 && exists|i: int|
                0 <= i < 81 && !(0 <= #[trigger] values@[i] <= 9),
            Ok(out) => {
                &&& values@.len() == 81
                &&& forall|i: int| 0 <= i < 81 ==> 0 <= #[trigger] values@[i] <= 9
                &&& out@.len() == 81
                &&& solvable(board_of(values@)) ==> is_solution(board_of(out@)) && extends_clues(
                    board_of(out@),
                    board_of(values@),
                )
                &&& !solvable(board_of(values@)) ==> out@ == values@
            },
        },
{
    if values.len() != 81 {
        return Err(RequestError::WrongLength);
    }
    let mut arr: [u8; 81] = [0u8; 81];
    let mut i: usize = 0;
    while i < 81
        invariant
            i <= 81,
            forall|k: int| 0 <= k < i ==> 0 <= #[trigger] values@[k] <= 9,
            forall|k: int| 0 <= k < i ==> arr@[k] == values@[k] as u8,
        decreases 81 - i,
    {
        let v = values[i];
        if v < 0 || v > 9 {
            return Err(RequestError::ValueOutOfRange);
        }
        arr[i] = v as u8;
        i = i + 1;
    }
    let sudoku = Sudoku::from(arr);
    proof {
        assert(sudoku@ =~= board_of(values@));
    }
    match solve(&sudoku) {
        Some(sol) => {
            let out = sol.to_vector();
            proof {
                assert(board_of(out@) =~= sol@);
            }
            Ok(out)
        },
        None => {
            let mut out: Vec<i32> = Vec::new();
            let mut j: usize = 0;
            while j < 81
                invariant
                    j <= 81,
                    out@.len() == j,
                    forall|k: int| 0 <= k < j ==> out@[k] == values@[k],
                decreases 81 - j,
            {
                out.push(values[j]);
                j = j + 1;
            }
            proof {
                assert(out@ =~= values@);
            }
            Ok(out)
        },
    }
}

/// Builds a playable puzzle as a flat sequence: generates a random solved
/// board, carves the given number of cells out of it, and flattens the
/// result. A generation failure is passed through as an explicit error.
pub fn generate_request<R: RandomSource>(cells_to_remove: usize, rng: &mut R) -> (r: Result<
    Vec<i32>,
    GenerateError,
>)
    requires
        cells_to_remove <= 74,
    ensures
        r matches Ok(out) ==> {
            &&& out@.len() == 81
            &&& forall|i: int| 0 <= i < 81 ==> 0 <= #[trigger] out@[i] <= 9
            &&& exists|sol: Seq<u8>|
                is_solution(sol) && (forall|i: int|
                    0 <= i < 81 ==> board_of(out@)[i] == sol[i] || board_of(out@)[i] == 0)
                    && count_zeros(board_of(out@)) == cells_to_remove
        },
{
    match generate_solved(rng) {
        Err(e) => Err(e),
        Ok(solved) => {
            proof {
                lemma_count_zeros_none(solved@);
            }
            let ghost sol = solved@;
            let carved = solved.carve(cells_to_remove, rng);
            let out = carved.to_vector();
            proof {
                assert(board_of(out@) =~= carved@);
                assert(is_solution(sol) && (forall|i: int|
                    0 <= i < 81 ==> board_of(out@)[i] == sol[i] || board_of(out@)[i] == 0)
                    && count_zeros(board_of(out@)) == cells_to_remove);
            }
            Ok(out)
        },
    }
}

} // verus!
