//! Exhaustive enumeration of perfect clears on a small rectangular board.
//!
//! Given board dimensions whose product is divisible by four and a catalog of
//! four-cell piece variants, the solver enumerates every ordered sequence of
//! placements that fills the board completely, with no overlap and nothing out
//! of bounds. Placements are always anchored at the canonical next empty cell,
//! which keeps the enumeration deterministic and tractable.

use vstd::prelude::*;

pub mod board;
pub mod catalog;
pub mod engine;
pub mod escape;
pub mod laws;
pub mod moves;
pub mod replay;

pub use board::Board;
pub use catalog::{Catalog, Color, PieceVariant};
pub use engine::{compute_perfect_clears, enumerate_all, SearchState};
pub use escape::escape_text;
pub use moves::{is_legal, legal_moves, Placement};
pub use replay::replay_solution;

verus! {

/// One complete tiling, recorded as the ordered sequence of catalog ids
/// played, in play order.
pub type Solution = Vec<usize>;

/// All solutions found by one exhaustive run, in enumeration order.
pub type SolutionSet = Vec<Solution>;

/// The error taxonomy of the solver.
#[derive(Clone, Copy, PartialEq, Eq, Structural, Debug)]
pub enum SolverError {
    /// The requested board dimensions have a product that is not divisible by
    /// four, or a catalog entry is ill-formed; reported before any search.
    Configuration,
    /// The canonical empty-cell scan found nothing although the target move
    /// count had not been reached. Surfaced as a catchable error rather than
    /// a crash; the solver's contracts prove it is never returned.
    InternalConsistency,
}

} // verus!
