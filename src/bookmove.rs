//! One scored occurrence of a move in a position.

use vstd::prelude::*;

verus! {

/// A move played in a position of a recorded game, with the game's outcome
/// seen from the side to move there: 2 good, 1 neutral, 0 bad.
#[derive(Debug)]
pub struct BookMove {
    /// canonical variant key
    pub variant: String,
    /// digest of the game record it came from
    pub sha: String,
    /// position before the move
    pub epd: String,
    /// the move in SAN
    pub san: String,
    /// the move in UCI, the key that weights are summed under
    pub uci: String,
    /// outcome for the side to move
    pub result_wrt: i32,
}

} // verus!
