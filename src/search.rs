//! Terminal detection and the depth-limited negamax search with alpha-beta pruning.
use crate::board::{
    count_of, gen_moves, is_playable, legal_moves, lemma_count_positive, lemma_legal_moves,
    lemma_play_wf, side_opp, square_make, Color, List, Move, Pos, PosView, Square, FILE_SIZE,
    MOVE_CAP, MOVE_NONE, PLAY_END, RANK_SIZE, STRIDE,
};
use crate::eval::{eval, eval_spec, lemma_eval_bounded};
use crate::pattern::{check_pattern5, has_run_of_five, lemma_five_is_a_grid_run};
use vstd::prelude::*;

verus! {

/// Bound of every score: a loss at the root scores `-EVAL_INF`.
pub const EVAL_INF: i32 = FILE_SIZE * RANK_SIZE * 100;

/// Below every score: the best score of a node before any move is tried.
pub const SCORE_NONE: i32 = -EVAL_INF - 1;

/// The side that just moved has five in a row along a row, a column or a diagonal.
pub open spec fn is_win(v: PosView) -> bool {
    has_run_of_five(v.cells, v.last_mover())
}

/// No playable cell is empty.
pub open spec fn is_full(cells: Seq<Color>) -> bool {
    forall|sq: int| is_playable(sq) ==> #[trigger] cells[sq] != Color::Empty
}

pub open spec fn is_draw(v: PosView) -> bool {
    is_full(v.cells) && !is_win(v)
}

pub open spec fn is_end(v: PosView) -> bool {
    is_win(v) || is_draw(v)
}

pub open spec fn max(a: int, b: int) -> int {
    if a >= b {
        a
    } else {
        b
    }
}

/// Negamax value of `v` for the side to move, searched `depth` plies deep from `ply`
/// plies below the root: a loss scores `-EVAL_INF + ply`, a draw 0, a leaf its
/// heuristic score, and an inner node the best of its moves.
pub open spec fn value(v: PosView, depth: int, ply: int) -> int
    decreases depth, 1int, 0int,
{
    if is_win(v) {
        -EVAL_INF + ply
    } else if is_full(v.cells) {
        0
    } else if depth <= 0 {
        eval_spec(v)
    } else {
        best_of(v, depth, ply, legal_moves(v.cells))
    }
}

/// Score of the move `m` for the side to move in `v`: the negated value of what follows.
pub open spec fn move_score(v: PosView, depth: int, ply: int, m: Move) -> int
    decreases depth, 0int, 0int,
{
    if depth <= 0 {
        SCORE_NONE as int
    } else {
        -value(v.play(m as int), depth - 1, ply + 1)
    }
}

/// Best score among the moves `ms`, or `SCORE_NONE` if there are none.
pub open spec fn best_of(v: PosView, depth: int, ply: int, ms: Seq<Move>) -> int
    decreases depth, 0int, ms.len(),
{
    if ms.len() == 0 || depth <= 0 {
        SCORE_NONE as int
    } else if ms.len() == 1 {
        move_score(v, depth, ply, ms[0])
    } else {
        max(best_of(v, depth, ply, ms.drop_last()), move_score(v, depth, ply, ms.last()))
    }
}

/// Fail-soft bounds: a result at or below the window bounds the value from above,
/// one at or above it bounds it from below, and one inside it is the value.
pub open spec fn fail_soft(r: int, val: int, alpha: int, beta: int) -> bool {
    &&& r <= alpha ==> val <= r
    &&& r >= beta ==> val >= r
    &&& alpha < r < beta ==> val == r
}

/// Whether `pos` is won by the side that just moved.
pub fn pos_is_winner(pos: &Pos) -> (r: bool)
    requires
        pos@.wf(),
    ensures
        r == is_win(pos@),
{
    let current_side = side_opp(pos.turn());
    proof {
        lemma_five_is_a_grid_run(pos@, current_side);
    }
    check_pattern5(pos, current_side)
}

/// Whether `pos` is a draw: the board is full and nobody has won.
pub fn pos_is_draw(pos: &Pos) -> (r: bool)
    requires
        pos@.wf(),
    ensures
        r == is_draw(pos@),
{
    let mut found: bool = true;
    for rk in 0..RANK_SIZE
        invariant
            pos@.wf(),
            found == forall|sq: int|
                0 <= sq < rk * STRIDE && is_playable(sq) ==> #[trigger] pos@.cells[sq]
                    != Color::Empty,
    {
        for fl in 0..FILE_SIZE
            invariant
                0 <= rk < RANK_SIZE,
                pos@.wf(),
                found == forall|sq: int|
                    0 <= sq < rk * STRIDE + fl && is_playable(sq) ==> #[trigger] pos@.cells[sq]
                        != Color::Empty,
        {
            let sq: Square = square_make(fl, rk);
            if pos.can_play(sq) {
                found = false;
            }
        }
    }
    let mut out: bool = false;
    if found && !pos_is_winner(pos) {
        out = true;
    }
    out
}

/// Whether the game is over in `pos`.
pub fn pos_is_end(pos: &Pos) -> (r: bool)
    requires
        pos@.wf(),
    ensures
        r == is_end(pos@),
{
    if pos_is_winner(pos) || pos_is_draw(pos) {
        true
    } else {
        false
    }
}

/// The best score over `ms` is at least the score of each of its moves, and is reached
/// by one of them when there is one.
pub proof fn lemma_best_of(v: PosView, depth: int, ply: int, ms: Seq<Move>)
    requires
        depth > 0,
    ensures
        forall|j: int|
            0 <= j < ms.len() ==> best_of(v, depth, ply, ms) >= #[trigger] move_score(
                v,
                depth,
                ply,
                ms[j],
            ),
        ms.len() > 0 ==> exists|j: int|
            0 <= j < ms.len() && best_of(v, depth, ply, ms) == #[trigger] move_score(
                v,
                depth,
                ply,
                ms[j],
            ),
    decreases ms.len(),
{
    if ms.len() > 1 {
        let prev = ms.drop_last();
        lemma_best_of(v, depth, ply, prev);
        assert forall|j: int|
            0 <= j < ms.len() implies best_of(v, depth, ply, ms) >= #[trigger] move_score(
            v,
            depth,
            ply,
            ms[j],
        ) by {
            if j < ms.len() - 1 {
                assert(ms[j] == prev[j]);
            }
        }
        if best_of(v, depth, ply, ms) == move_score(v, depth, ply, ms.last()) {
            assert(ms.last() == ms[ms.len() - 1]);
        } else {
            let j = choose|j: int|
                0 <= j < prev.len() && best_of(v, depth, ply, prev) == #[trigger] move_score(
                    v,
                    depth,
                    ply,
                    prev[j],
                );
            assert(ms[j] == prev[j]);
        }
    } else if ms.len() == 1 {
        assert(best_of(v, depth, ply, ms) == move_score(v, depth, ply, ms[0]));
    }
}

/// Every value found `ply` plies below the root lies within `EVAL_INF - ply` of zero.
pub proof fn lemma_value_bounded(v: PosView, depth: int, ply: int)
    requires
        v.wf(),
        0 <= ply,
        0 <= depth,
        depth + ply <= MOVE_CAP,
    ensures
        -EVAL_INF + ply <= value(v, depth, ply) <= EVAL_INF - ply,
    decreases depth,
{
    lemma_eval_bounded(v);
    if !is_win(v) && !is_full(v.cells) && depth > 0 {
        let ms = legal_moves(v.cells);
        lemma_best_of(v, depth, ply, ms);
        assert(ms.len() > 0) by {
            lemma_has_move(v);
        }
        let j = choose|j: int|
            0 <= j < ms.len() && value(v, depth, ply) == #[trigger] move_score(v, depth, ply, ms[j]);
        lemma_legal_moves(v.cells);
        assert(ms.contains(ms[j]));
        lemma_play_wf(v, ms[j] as int);
        lemma_value_bounded(v.play(ms[j] as int), depth - 1, ply + 1);
    }
}

/// A board that is not full has a legal move.
pub proof fn lemma_has_move(v: PosView)
    requires
        v.cells.len() == crate::board::SQUARE_SIZE,
        !is_full(v.cells),
    ensures
        legal_moves(v.cells).len() > 0,
{
    lemma_legal_moves(v.cells);
    let sq = choose|sq: int| is_playable(sq) && #[trigger] v.cells[sq] == Color::Empty;
    assert(legal_moves(v.cells).contains(sq as Move));
}

/// A node returns a score, not a move, below the root, at the end of the game, or at
/// the depth limit.
pub open spec fn returns_score(v: PosView, depth: int, ply: int) -> bool {
    ply > 0 || is_end(v) || depth == 0
}

/// Negamax search of `pos` within the window `(alpha, beta)`, `depth` plies deep,
/// `ply` plies below the root. Returns a fail-soft score, except at the root of an
/// unfinished game searched at least one ply deep, where it returns a legal move.
/// At the root the moves are tried in a random order; with the full window the move
/// returned is one of the best.
pub fn search_real(pos: &Pos, alpha: i32, beta: i32, depth: i32, ply: i32) -> (r: i32)
    requires
        pos@.wf(),
        -EVAL_INF <= alpha < beta <= EVAL_INF,
        0 <= depth,
        0 <= ply,
        depth + ply <= MOVE_CAP,
    ensures
        is_win(pos@) ==> r == -EVAL_INF + ply,
        is_draw(pos@) ==> r == 0,
        !is_end(pos@) && depth == 0 ==> r == eval_spec(pos@),
        returns_score(pos@, depth as int, ply as int) ==> {
            &&& -EVAL_INF + ply <= r <= EVAL_INF - ply
            &&& fail_soft(r as int, value(pos@, depth as int, ply as int), alpha as int, beta as int)
        },
        returns_score(pos@, depth as int, ply as int) && alpha == -EVAL_INF && beta == EVAL_INF
            ==> r == value(pos@, depth as int, ply as int),
        !returns_score(pos@, depth as int, ply as int) ==> legal_moves(pos@.cells).contains(r),
        !returns_score(pos@, depth as int, ply as int) && alpha == -EVAL_INF && beta == EVAL_INF
            ==> forall|m: Move| #[trigger]
            legal_moves(pos@.cells).contains(m) ==> move_score(pos@, depth as int, ply as int, m)
                <= move_score(pos@, depth as int, ply as int, r),
    decreases depth,
{
    proof {
        lemma_value_bounded(pos@, depth as int, ply as int);
        lemma_eval_bounded(pos@);
    }
    if pos_is_winner(pos) {
        return -EVAL_INF + ply;
    }
    if pos_is_draw(pos) {
        return 0;
    }
    if depth == 0 {
        return eval(pos);
    }
    let mut list = List::new();
    let mut bm: Move = MOVE_NONE;
    let mut bs: i32 = SCORE_NONE;
    gen_moves(&mut list, pos);
    // move loop
    if ply == 0 {
        list.shuffle();
    }
    let ghost v = pos@;
    let ghost ms = list@;
    let ghost legal = legal_moves(v.cells);
    proof {
        lemma_legal_moves(v.cells);
        lemma_has_move(v);
        ms.to_multiset_ensures();
        legal.to_multiset_ensures();
        assert forall|m: Move| #[trigger] ms.contains(m) <==> legal.contains(m) by {
            assert(ms.to_multiset().count(m) == legal.to_multiset().count(m));
        }
    }
    let n = list.size();
    for i in 0..n
        invariant
            pos@ == v,
            v.wf(),
            !is_end(v),
            1 <= depth,
            0 <= ply,
            depth + ply <= MOVE_CAP,
            -EVAL_INF <= alpha < beta <= EVAL_INF,
            list.wf(),
            list@ == ms,
            n == ms.len(),
            legal == legal_moves(v.cells),
            forall|m: Move| #[trigger] ms.contains(m) <==> legal.contains(m),
            forall|m: Move|
                #[trigger] legal.contains(m) ==> is_playable(m as int) && v.cells[m as int]
                    == Color::Empty,
            ply > 0 ==> ms == legal,
            i == 0 ==> bs == SCORE_NONE,
            i > 0 ==> -EVAL_INF + ply + 1 <= bs <= EVAL_INF - ply - 1 && ms.subrange(
                0,
                i as int,
            ).contains(bm),
            bs < beta ==> {
                &&& bs <= alpha ==> best_of(v, depth as int, ply as int, ms.subrange(0, i as int))
                    <= bs
                &&& alpha < bs ==> best_of(v, depth as int, ply as int, ms.subrange(0, i as int))
                    == bs
            },
            beta <= bs ==> best_of(v, depth as int, ply as int, ms) >= bs,
            alpha < bs < beta ==> move_score(v, depth as int, ply as int, bm) == bs,
    {
        if bs < beta {
            let mv: Move = list.get(i);
            proof {
                assert(ms.contains(ms[i as int]));
            }
            let mut new_pos = *pos;
            new_pos.do_move(mv);
            let m = if alpha > bs {
                alpha
            } else {
                bs
            };
            let sc: i32 = -search_real(&new_pos, -beta, -m, depth - 1, ply + 1);
            let ghost bm0 = bm;
            if sc > bs {
                bm = mv;
                bs = sc;
            }
            proof {
                let pre = ms.subrange(0, i as int);
                let cur = ms.subrange(0, i + 1);
                assert(cur.drop_last() =~= pre);
                assert(cur.last() == mv);
                let t = move_score(v, depth as int, ply as int, mv);
                assert(t == -value(new_pos@, depth - 1, ply + 1));
                if i == 0 {
                    assert(best_of(v, depth as int, ply as int, cur) == t);
                } else {
                    assert(best_of(v, depth as int, ply as int, cur) == max(
                        best_of(v, depth as int, ply as int, pre),
                        t,
                    ));
                }
                lemma_best_of(v, depth as int, ply as int, ms);
                assert(ms[i as int] == mv);
                if bm == bm0 && i > 0 {
                    let j = choose|j: int| 0 <= j < pre.len() && pre[j] == bm;
                    assert(cur[j] == bm);
                } else {
                    assert(cur[i as int] == bm);
                }
            }
        }
    }
    proof {
        assert(ms.subrange(0, n as int) =~= ms);
        lemma_best_of(v, depth as int, ply as int, ms);
        if ply == 0 && alpha == -EVAL_INF && beta == EVAL_INF {
            assert forall|mv: Move| #[trigger] legal.contains(mv) implies move_score(
                v,
                depth as int,
                ply as int,
                mv,
            ) <= move_score(v, depth as int, ply as int, bm) by {
                assert(ms.contains(mv));
                let j = choose|j: int| 0 <= j < ms.len() && ms[j] == mv;
                assert(move_score(v, depth as int, ply as int, ms[j]) <= bs);
            }
        }
    }
    if ply == 0 {
        bm
    } else {
        bs
    }
}

/// Depth actually searched: the requested depth capped at the number of empty cells,
/// and exactly that number once it is at most `endgame`.
pub open spec fn effective_depth(depth: int, endgame: int, empties: int) -> int {
    if empties <= endgame || depth > empties {
        empties
    } else {
        depth
    }
}

/// Chooses a move for the side to move in `pos`, searching `depth` plies deep, or to the
/// end of the game once at most `endgame` cells are empty. `endgame_mode` is set when the
/// search reaches the end of the game, and stays set.
pub fn search(pos: &Pos, depth: i32, endgame: i32, endgame_mode: &mut bool) -> (r: Move)
    requires
        pos@.wf(),
        !is_end(pos@),
        depth >= 1,
    ensures
        ({
            let empties = count_of(pos@.cells, Color::Empty);
            let d = effective_depth(depth as int, endgame as int, empties);
            &&& legal_moves(pos@.cells).contains(r)
            &&& is_playable(r as int)
            &&& pos@.cells[r as int] == Color::Empty
            &&& forall|m: Move| #[trigger]
                legal_moves(pos@.cells).contains(m) ==> move_score(pos@, d, 0, m) <= move_score(
                    pos@,
                    d,
                    0,
                    r,
                )
            &&& *final(endgame_mode) == (*old(endgame_mode) || d == empties)
        }),
{
    let mut new_depth = depth;
    let empties: i32 = pos.count(Color::Empty);
    proof {
        assert(!is_full(pos@.cells));
        let e = choose|e: int| is_playable(e) && #[trigger] pos@.cells[e] == Color::Empty;
        lemma_count_positive(pos@.cells, Color::Empty, PLAY_END as int, e);
    }
    if empties <= endgame || new_depth > empties {
        new_depth = empties;
    }
    if new_depth == empties {
        *endgame_mode = true;
    }
    proof {
        lemma_legal_moves(pos@.cells);
    }
    search_real(pos, -EVAL_INF, EVAL_INF, new_depth, 0)
}

/// Negamax: the value of an unfinished position searched at least one ply deep is the
/// best, over its legal moves, of the negated value of the position that follows.
pub proof fn lemma_negamax(v: PosView, depth: int, ply: int)
    requires
        v.wf(),
        !is_end(v),
        depth >= 1,
    ensures
        forall|m: Move| #[trigger]
            legal_moves(v.cells).contains(m) ==> value(v, depth, ply) >= -value(
                v.play(m as int),
                depth - 1,
                ply + 1,
            ),
        exists|m: Move| #[trigger]
            legal_moves(v.cells).contains(m) && value(v, depth, ply) == -value(
                v.play(m as int),
                depth - 1,
                ply + 1,
            ),
{
    let ms = legal_moves(v.cells);
    lemma_best_of(v, depth, ply, ms);
    lemma_has_move(v);
    assert forall|m: Move| #[trigger] ms.contains(m) implies value(v, depth, ply) >= -value(
        v.play(m as int),
        depth - 1,
        ply + 1,
    ) by {
        let j = choose|j: int| 0 <= j < ms.len() && ms[j] == m;
        assert(move_score(v, depth, ply, ms[j]) <= value(v, depth, ply));
    }
    let j = choose|j: int|
        0 <= j < ms.len() && value(v, depth, ply) == #[trigger] move_score(v, depth, ply, ms[j]);
    assert(ms.contains(ms[j]));
}

pub open spec fn abs(x: int) -> int {
    if x < 0 {
        -x
    } else {
        x
    }
}

/// A loss found within the board's cell count of plies outweighs every heuristic score.
pub proof fn lemma_terminal_dominates(v: PosView, ply: int)
    requires
        0 <= ply <= MOVE_CAP,
    ensures
        abs(eval_spec(v)) < abs(-EVAL_INF + ply),
{
    lemma_eval_bounded(v);
}

} // verus!
