//! A 9x9 Sudoku core: board model, constraint checker, backtracking solver,
//! and puzzle generator (random seeding plus carving).

pub mod board;
pub mod coords;
pub mod generator;
pub mod random;
pub mod requests;
pub mod rules;
pub mod solver;

pub use board::Sudoku;
pub use coords::Coords;
pub use generator::GenerateError;
pub use generator::generate_solved;
pub use random::RandomSource;
pub use random::SeededRandom;
pub use random::ThreadRandom;
pub use requests::RequestError;
pub use requests::generate_request;
pub use requests::solve_request;
pub use solver::solve;
