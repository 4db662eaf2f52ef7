//! Generation and exhaustive solving of square edge-matching puzzles.
//!
//! A puzzle is a square grid of pieces; each piece carries four edge
//! labels, with label `0` reserved for edges that face the border.  The
//! library generates valid grids from a random source, enumerates every
//! rearrangement of a grid's pieces that is again valid, scores how alike
//! two grids are, and searches round by round for a puzzle whose distinct
//! solutions differ enough.

pub mod gen;
pub mod mix;
pub mod model;
pub mod prand;
pub mod search;
pub mod solver;

pub use model::Piece;
pub use model::Puzzle;
pub use model::SIZE;
pub use model::validate_puzzle;
pub use model::flatten_puzzle;
pub use model::grow_puzzle;
pub use model::match_count;
pub use model::puzzles_equal;
pub use gen::generate_puzzle_with_max;
pub use gen::get_rand_int_with_max;
pub use solver::PuzzleGen;
pub use search::Solution;
pub use search::get_puzzle_with_score;
pub use prand::Prand;
pub use mix::entropy;
pub use mix::hash;
pub use mix::splitmix;
