//! Score bounds shared by the evaluator and the search.

use vstd::prelude::*;

verus! {

/// Lowest score the search can report; also the initial alpha of a root search.
pub const MIN: i32 = -99999;

/// Base of the mate band: a side with no legal reply scores `KILL - depth`,
/// so mates found with less remaining depth score lower.
pub const KILL: i32 = MIN + 100;

/// Highest score the search can report; also the initial beta of a root search.
pub const MAX: i32 = 99999;

/// Ceiling on the search depth accepted by the iterative-deepening driver.
pub const MAX_DEPTH: i32 = 64;

} // verus!
