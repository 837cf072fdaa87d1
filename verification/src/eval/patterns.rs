//! Pattern scores for Gomoku evaluation.
//!
//! These constants define the scoring weights for board patterns, tuned for
//! Ninuki-renju rules.
use vstd::prelude::*;

verus! {

/// Pattern scores for evaluation.
pub struct PatternScore;

impl PatternScore {
    /// Five in a row - immediate win
    pub const FIVE: i32 = 1_000_000;

    /// Capture win (5 pairs captured)
    pub const CAPTURE_WIN: i32 = 1_000_000;

    /// Open four: _OOOO_ (unstoppable without capture)
    pub const OPEN_FOUR: i32 = 100_000;

    /// Closed four: XOOOO_ or _OOOOX (one way to extend)
    pub const CLOSED_FOUR: i32 = 50_000;

    /// Open three: _OOO_ (becomes open four if not blocked)
    pub const OPEN_THREE: i32 = 10_000;

    /// Closed three: XOOO_ or _OOOX (one side blocked)
    pub const CLOSED_THREE: i32 = 1_500;

    /// Open two: _OO_ (potential to grow)
    pub const OPEN_TWO: i32 = 1_000;

    /// Closed two: XOO_ or _OOX (one side blocked)
    pub const CLOSED_TWO: i32 = 200;

    /// Can capture opponent's pair next move
    pub const CAPTURE_THREAT: i32 = 8_000;

    /// Value per captured pair
    pub const CAPTURE_PAIR: i32 = 2_000;

    /// 4 pairs captured (one more = win)
    pub const NEAR_CAPTURE_WIN: i32 = 80_000;
}

/// Weight of a capture count (counts above 5 weigh as 5).
pub open spec fn cap_weight(n: u8) -> i32 {
    if n == 0 {
        0
    } else if n == 1 {
        2_000
    } else if n == 2 {
        7_000
    } else if n == 3 {
        20_000
    } else if n == 4 {
        80_000
    } else {
        1_000_000
    }
}

/// Weight of a capture count.
fn capture_weight(n: u8) -> (w: i32)
    ensures
        w == cap_weight(n),
{
    if n == 0 {
        0
    } else if n == 1 {
        2_000
    } else if n == 2 {
        7_000
    } else if n == 3 {
        20_000
    } else if n == 4 {
        PatternScore::NEAR_CAPTURE_WIN
    } else {
        PatternScore::CAPTURE_WIN
    }
}

/// Capture-based scoring with non-linear weights (closer to the capture win
/// weighs exponentially more): my weight minus the opponent's.
pub fn capture_score(my_captures: u8, opp_captures: u8) -> (s: i32)
    ensures
        s == cap_weight(my_captures) - cap_weight(opp_captures),
{
    capture_weight(my_captures) - capture_weight(opp_captures)
}

/// Capture scoring is antisymmetric: swapping the two counts negates it,
/// as negamax requires.
pub proof fn law_capture_score_antisymmetric(a: u8, b: u8)
    ensures
        cap_weight(a) - cap_weight(b) == -(cap_weight(b) - cap_weight(a)),
{
}

} // verus!
