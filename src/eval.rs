//! The static evaluator: a fixed priority list of threat shapes for both sides.
use crate::board::{Pos, PosView, Side, opp, side_opp};
use crate::pattern::{
    check_patterndead4, check_patternlive3, check_patternlive4, closed_four_count,
    has_open_four, open_three_count,
};
use vstd::prelude::*;

verus! {

/// The side to move faces an open four: it is lost next move.
pub const SCORE_FACING_OPEN_FOUR: i32 = -4096;

/// The side to move holds a winning threat: an open four, a closed four, or two open threes.
pub const SCORE_THREAT: i32 = 2560;

/// The opponent holds two fours, or two open threes.
pub const SCORE_FACING_DOUBLE: i32 = -2048;

/// The opponent holds a closed four together with an open three.
pub const SCORE_FACING_FOUR_THREE: i32 = -3048;

/// Largest magnitude of a heuristic score.
pub const HEURISTIC_MAX: i32 = 4096;

/// Heuristic value of a position for the side to move; the first rule that applies wins.
pub open spec fn eval_spec(v: PosView) -> int {
    let atk = v.turn;
    let def = opp(atk);
    let c = v.cells;
    if has_open_four(c, def) {
        SCORE_FACING_OPEN_FOUR as int
    } else if has_open_four(c, atk) {
        SCORE_THREAT as int
    } else if closed_four_count(c, atk) > 0 {
        SCORE_THREAT as int
    } else if closed_four_count(c, def) > 1 {
        SCORE_FACING_DOUBLE as int
    } else if closed_four_count(c, def) == 1 && open_three_count(c, def) > 0 {
        SCORE_FACING_FOUR_THREE as int
    } else if open_three_count(c, atk) > 1 {
        SCORE_THREAT as int
    } else if open_three_count(c, def) > 1 {
        SCORE_FACING_DOUBLE as int
    } else {
        0
    }
}

/// Every heuristic score lies within `HEURISTIC_MAX` of zero.
pub proof fn lemma_eval_bounded(v: PosView)
    ensures
        -HEURISTIC_MAX <= eval_spec(v) <= HEURISTIC_MAX,
{
}

/// Scores `pos` for the side to move.
pub fn eval(pos: &Pos) -> (r: i32)
    requires
        pos@.wf(),
    ensures
        r == eval_spec(pos@),
        -HEURISTIC_MAX <= r <= HEURISTIC_MAX,
{
    let atk: Side = pos.turn();
    let def: Side = side_opp(atk);
    if check_patternlive4(pos, def) {
        return SCORE_FACING_OPEN_FOUR;
    }
    if check_patternlive4(pos, atk) {
        return SCORE_THREAT;
    }
    if check_patterndead4(pos, atk) > 0 {
        return SCORE_THREAT;
    }
    let n_c4: i32 = check_patterndead4(pos, def);
    let n_c3: i32 = check_patternlive3(pos, def);
    // two fours
    if n_c4 > 1 {
        return SCORE_FACING_DOUBLE;
    }
    // a four and a three
    if n_c4 == 1 && n_c3 > 0 {
        return SCORE_FACING_FOUR_THREE;
    }
    // two threes
    if check_patternlive3(pos, atk) > 1 {
        return SCORE_THREAT;
    }
    if n_c3 > 1 {
        return SCORE_FACING_DOUBLE;
    }
    0
}

} // verus!
