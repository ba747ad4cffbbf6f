use sudoku::{
    generate_request, generate_solved, solve, solve_request, Coords, GenerateError, RandomSource,
    RequestError, SeededRandom, Sudoku, ThreadRandom,
};

/// A valid, fully solved board: each row is the previous row shifted.
const SOLVED: [u8; 81] = [
    1, 2, 3, 4, 5, 6, 7, 8, 9, //
    4, 5, 6, 7, 8, 9, 1, 2, 3, //
    7, 8, 9, 1, 2, 3, 4, 5, 6, //
    2, 3, 4, 5, 6, 7, 8, 9, 1, //
    5, 6, 7, 8, 9, 1, 2, 3, 4, //
    8, 9, 1, 2, 3, 4, 5, 6, 7, //
    3, 4, 5, 6, 7, 8, 9, 1, 2, //
    6, 7, 8, 9, 1, 2, 3, 4, 5, //
    9, 1, 2, 3, 4, 5, 6, 7, 8,
];

/// Every row, column and block holds each of 1..=9 exactly once, and no
/// cell is empty.
fn assert_full_solution(board: &[u8; 81]) {
    for &v in board.iter() {
        assert!((1..=9).contains(&v));
    }
    for y in 0..9 {
        let mut seen = [false; 10];
        for x in 0..9 {
            let v = board[x + 9 * y] as usize;
            assert!(!seen[v], "row {} repeats {}", y, v);
            seen[v] = true;
        }
    }
    for x in 0..9 {
        let mut seen = [false; 10];
        for y in 0..9 {
            let v = board[x + 9 * y] as usize;
            assert!(!seen[v], "column {} repeats {}", x, v);
            seen[v] = true;
        }
    }
    for bx in 0..3 {
        for by in 0..3 {
            let mut seen = [false; 10];
            for i in 0..3 {
                for j in 0..3 {
                    let v = board[(bx * 3 + i) + 9 * (by * 3 + j)] as usize;
                    assert!(!seen[v], "block ({}, {}) repeats {}", bx, by, v);
                    seen[v] = true;
                }
            }
        }
    }
}

/// The number of cells the difficulty blanks: `floor(74 * (1 - difficulty))`.
fn cells_for_difficulty(difficulty: f64) -> usize {
    ((81 - 7) as f64 * (1f64 - difficulty)) as usize
}

#[test]
fn generated_board_is_valid() {
    let sudoku = Sudoku::new(true).unwrap();
    assert_full_solution(&sudoku.to_array());

    let mut rng = SeededRandom::new(7);
    let sudoku = generate_solved(&mut rng).unwrap();
    assert_full_solution(&sudoku.to_array());
}

#[test]
fn linear_round_trip() {
    for i in 0..81 {
        let coords = Coords::from(i);
        assert_eq!(coords.to_int(), i as usize);
    }
    assert_eq!(Coords::from(80), Coords { x: 8, y: 8 });
    assert_eq!(Coords::from(9), Coords { x: 0, y: 1 });
}

#[test]
fn stepping_is_row_major() {
    let mut coords = Coords { x: 0, y: 0 };
    for i in 1..81 {
        coords.inc();
        assert_eq!(coords.to_int(), i);
    }
    for i in (0..80).rev() {
        coords.dec();
        assert_eq!(coords.to_int(), i);
    }
}

#[test]
fn solve_returns_solved_board_unchanged() {
    let sudoku = Sudoku::from(SOLVED);
    let solved = solve(&sudoku).expect("a valid full board solves to itself");
    assert_eq!(solved.to_array(), SOLVED);
}

#[test]
fn solve_rejects_immediate_duplicate() {
    let mut board = [0u8; 81];
    board[0] = 5;
    board[1] = 5;
    let sudoku = Sudoku::from(board);
    assert!(solve(&sudoku).is_none());
}

#[test]
fn carve_at_difficulty_one_removes_nothing() {
    let solved = Sudoku::from(SOLVED);
    let mut rng = ThreadRandom::new();
    let cells = cells_for_difficulty(1.0);
    assert_eq!(cells, 0);
    let carved = solved.carve(cells, &mut rng);
    assert_eq!(carved.to_array(), SOLVED);
}

#[test]
fn carve_at_difficulty_zero_keeps_seven_clues() {
    let solved = Sudoku::from(SOLVED);
    let mut rng = ThreadRandom::new();
    let cells = cells_for_difficulty(0.0);
    assert_eq!(cells, 74);
    let carved = solved.carve(cells, &mut rng).to_array();
    let mut nonzero = 0;
    for i in 0..81 {
        if carved[i] != 0 {
            nonzero += 1;
            assert_eq!(carved[i], SOLVED[i], "kept cells are copied verbatim");
        }
    }
    assert_eq!(nonzero, 7);
}

#[test]
fn zero_never_conflicts() {
    let sudoku = Sudoku::from([0u8; 81]);
    for x in 0..9u8 {
        for y in 0..9u8 {
            assert!(sudoku.is_in_rule(&Coords { x, y }));
        }
    }
}

#[test]
fn solve_completes_single_clue_board() {
    let mut board = [0u8; 81];
    board[0] = 5;
    let sudoku = Sudoku::from(board);
    let solved = solve(&sudoku).expect("a single clue always completes");
    let result = solved.to_array();
    assert_eq!(result[0], 5);
    assert_full_solution(&result);
}

#[test]
fn generate_twice_differs() {
    let mut rng = ThreadRandom::new();
    let first = generate_request(59, &mut rng).unwrap();
    let second = generate_request(59, &mut rng).unwrap();
    for puzzle in [&first, &second] {
        assert_eq!(puzzle.len(), 81);
        for &v in puzzle.iter() {
            assert!((0..=9).contains(&v));
        }
        let zeros = puzzle.iter().filter(|&&v| v == 0).count();
        assert_eq!(zeros, 59);
    }
    assert_ne!(first, second, "two fresh puzzles almost surely differ");
}

#[test]
fn seeded_generation_is_reproducible() {
    let mut rng_a = SeededRandom::new(42);
    let mut rng_b = SeededRandom::new(42);
    let a = generate_request(59, &mut rng_a).unwrap();
    let b = generate_request(59, &mut rng_b).unwrap();
    assert_eq!(a, b);
}

#[test]
fn solve_request_round_trip() {
    let mut values = vec![0i32; 81];
    values[0] = 5;
    let out = solve_request(&values).unwrap();
    assert_eq!(out.len(), 81);
    assert_eq!(out[0], 5);
    let mut board = [0u8; 81];
    for i in 0..81 {
        board[i] = out[i] as u8;
    }
    assert_full_solution(&board);
}

#[test]
fn solve_request_echoes_unsolvable_input() {
    let mut values = vec![0i32; 81];
    values[0] = 5;
    values[1] = 5;
    let out = solve_request(&values).unwrap();
    assert_eq!(out, values);
}

#[test]
fn solve_request_rejects_wrong_length() {
    let values = vec![0i32; 80];
    assert_eq!(solve_request(&values), Err(RequestError::WrongLength));
    let values = vec![0i32; 82];
    assert_eq!(solve_request(&values), Err(RequestError::WrongLength));
}

#[test]
fn solve_request_rejects_out_of_range_value() {
    let mut values = vec![0i32; 81];
    values[40] = 10;
    assert_eq!(solve_request(&values), Err(RequestError::ValueOutOfRange));
    values[40] = -1;
    assert_eq!(solve_request(&values), Err(RequestError::ValueOutOfRange));
}

#[test]
fn seeding_reports_exhausted_pool() {
    // At (0, 0): 1..=8 sit in the rest of row 0, and 9 sits below in
    // column 0, so no value at all stays consistent there.
    let mut board = [0u8; 81];
    for x in 1..9 {
        board[x] = x as u8;
    }
    board[9] = 9;
    let mut sudoku = Sudoku::from(board);
    let mut rng = ThreadRandom::new();
    let r = sudoku.set_random_number(0, 0, &mut rng);
    assert_eq!(r, Err(GenerateError::SeedingFailed));
    assert_eq!(sudoku.to_array(), board, "a failed seeding leaves the board as it was");
}

#[test]
fn random_picks_stay_below_bound() {
    let mut rng = ThreadRandom::new();
    for _ in 0..100 {
        assert_eq!(rng.pick(1), 0);
        assert!(rng.pick(7) < 7);
    }
    let mut seeded = SeededRandom::new(0);
    let mut spread = [false; 5];
    for _ in 0..100 {
        let p = seeded.pick(5);
        assert!(p < 5);
        spread[p] = true;
    }
    assert!(spread.iter().filter(|&&b| b).count() > 1, "the seeded source varies its picks");
}

#[test]
fn to_vector_flattens_the_board() {
    let sudoku = Sudoku::from(SOLVED);
    let v = sudoku.to_vector();
    assert_eq!(v.len(), 81);
    for i in 0..81 {
        assert_eq!(v[i], SOLVED[i] as i32);
    }
}

#[test]
fn playable_sudoku_of_unsolvable_board_is_unchanged() {
    let mut board = [0u8; 81];
    board[0] = 5;
    board[1] = 5;
    let sudoku = Sudoku::from(board);
    let mut rng = ThreadRandom::new();
    let r = sudoku.get_playable_sudoku(59, &mut rng);
    assert_eq!(r.to_array(), board);
}

#[test]
fn playable_sudoku_carves_a_solution() {
    let solved = Sudoku::from(SOLVED);
    let mut rng = ThreadRandom::new();
    let r = solved.get_playable_sudoku(59, &mut rng).to_array();
    let mut zeros = 0;
    for i in 0..81 {
        if r[i] == 0 {
            zeros += 1;
        } else {
            assert_eq!(r[i], SOLVED[i]);
        }
    }
    assert_eq!(zeros, 59);
}
