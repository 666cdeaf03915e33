//! The line-pattern scanner: occurrences of stone shapes along the four directions.
use crate::board::{
    Color, Pos, PosView, Side, Square, FILE_SIZE, PLAY_END, RANK_SIZE, SQUARE_SIZE, STRIDE,
    is_playable, is_side, square_make, square_of,
};
use vstd::prelude::*;

verus! {

/// Index distance between consecutive cells of a line in direction `d`:
/// 0 left to right, 1 top to bottom, 2 top left to bottom right, 3 top right to bottom left.
pub open spec fn step(d: int) -> int {
    if d == 0 {
        1
    } else if d == 1 {
        STRIDE as int
    } else if d == 2 {
        STRIDE + 1
    } else {
        STRIDE - 1
    }
}

/// The `k`-th cell of the line that starts at `sq` in direction `d`.
pub open spec fn at(cells: Seq<Color>, sq: int, d: int, k: int) -> Color {
    cells[sq + k * step(d)]
}

/// `OOOOO`
pub open spec fn five(cells: Seq<Color>, sq: int, d: int, sd: Color) -> bool {
    &&& at(cells, sq, d, 0) == sd
    &&& at(cells, sq, d, 1) == sd
    &&& at(cells, sq, d, 2) == sd
    &&& at(cells, sq, d, 3) == sd
    &&& at(cells, sq, d, 4) == sd
}

/// `-OOOO-`
pub open spec fn open_four(cells: Seq<Color>, sq: int, d: int, sd: Color) -> bool {
    &&& at(cells, sq, d, 0) == Color::Empty
    &&& at(cells, sq, d, 1) == sd
    &&& at(cells, sq, d, 2) == sd
    &&& at(cells, sq, d, 3) == sd
    &&& at(cells, sq, d, 4) == sd
    &&& at(cells, sq, d, 5) == Color::Empty
}

pub open spec fn ind(b: bool) -> int {
    if b {
        1
    } else {
        0
    }
}

/// Whether the five cells from `sq` in direction `d` hold `sd` everywhere but at
/// `gap`, which is empty.
pub open spec fn four_with_gap(cells: Seq<Color>, sq: int, d: int, sd: Color, gap: int) -> bool {
    forall|k: int|
        0 <= k < 5 ==> #[trigger] at(cells, sq, d, k) == if k == gap {
            Color::Empty
        } else {
            sd
        }
}

/// Closed fours in the window at `sq`, direction `d`: one for each of
/// `OOOO_`, `OOO_O`, `OO_OO`, `O_OOO`, `_OOOO` that it matches.
pub open spec fn closed_fours(cells: Seq<Color>, sq: int, d: int, sd: Color) -> int {
    ind(four_with_gap(cells, sq, d, sd, 4)) + ind(four_with_gap(cells, sq, d, sd, 3)) + ind(
        four_with_gap(cells, sq, d, sd, 2),
    ) + ind(four_with_gap(cells, sq, d, sd, 1)) + ind(four_with_gap(cells, sq, d, sd, 0))
}

/// Open threes in the window at `sq`, direction `d`: one for each of
/// `-OOO-`, `-OO-O-`, `-O-OO-` that it matches.
pub open spec fn open_threes(cells: Seq<Color>, sq: int, d: int, sd: Color) -> int {
    let e = Color::Empty;
    ind(
        at(cells, sq, d, 0) == e && at(cells, sq, d, 1) == sd && at(cells, sq, d, 2) == sd && at(
            cells,
            sq,
            d,
            3,
        ) == sd && at(cells, sq, d, 4) == e,
    ) + ind(
        at(cells, sq, d, 0) == e && at(cells, sq, d, 1) == sd && at(cells, sq, d, 2) == sd && at(
            cells,
            sq,
            d,
            3,
        ) == e && at(cells, sq, d, 4) == sd && at(cells, sq, d, 5) == e,
    ) + ind(
        at(cells, sq, d, 0) == e && at(cells, sq, d, 1) == sd && at(cells, sq, d, 2) == e && at(
            cells,
            sq,
            d,
            3,
        ) == sd && at(cells, sq, d, 4) == sd && at(cells, sq, d, 5) == e,
    )
}

/// Sum of `f(sq, d)` over the directions below `d`.
pub open spec fn dir_sum(f: spec_fn(int, int) -> int, sq: int, d: int) -> int
    decreases d,
{
    if d <= 0 {
        0
    } else {
        dir_sum(f, sq, d - 1) + f(sq, d - 1)
    }
}

/// Sum of `f(sq, d)` over the playable squares below `n` and the four directions.
pub open spec fn board_sum(f: spec_fn(int, int) -> int, n: int) -> int
    decreases n,
{
    if n <= 0 {
        0
    } else {
        board_sum(f, n - 1) + if is_playable(n - 1) {
            dir_sum(f, n - 1, 4)
        } else {
            0
        }
    }
}

pub open spec fn five_ind(cells: Seq<Color>, sd: Color) -> spec_fn(int, int) -> int {
    |sq: int, d: int| ind(five(cells, sq, d, sd))
}

pub open spec fn open_four_ind(cells: Seq<Color>, sd: Color) -> spec_fn(int, int) -> int {
    |sq: int, d: int| ind(open_four(cells, sq, d, sd))
}

pub open spec fn closed_four_fn(cells: Seq<Color>, sd: Color) -> spec_fn(int, int) -> int {
    |sq: int, d: int| closed_fours(cells, sq, d, sd)
}

pub open spec fn open_three_fn(cells: Seq<Color>, sd: Color) -> spec_fn(int, int) -> int {
    |sq: int, d: int| open_threes(cells, sq, d, sd)
}

/// Some line of the board holds five stones of `sd` in a row.
pub open spec fn has_five(cells: Seq<Color>, sd: Color) -> bool {
    exists|sq: int, d: int| is_playable(sq) && 0 <= d < 4 && #[trigger] five(cells, sq, d, sd)
}

/// Some line of the board holds the shape `-OOOO-` of `sd`.
pub open spec fn has_open_four(cells: Seq<Color>, sd: Color) -> bool {
    exists|sq: int, d: int| is_playable(sq) && 0 <= d < 4 && #[trigger] open_four(cells, sq, d, sd)
}

/// Number of closed fours of `sd` over the board, each gap placement of each window counted.
pub open spec fn closed_four_count(cells: Seq<Color>, sd: Color) -> int {
    board_sum(closed_four_fn(cells, sd), PLAY_END as int)
}

/// Number of open threes of `sd` over the board, each shape of each window counted.
pub open spec fn open_three_count(cells: Seq<Color>, sd: Color) -> int {
    board_sum(open_three_fn(cells, sd), PLAY_END as int)
}

/// A sum of non-negative terms is positive exactly when one of its terms is.
proof fn lemma_board_sum_positive(f: spec_fn(int, int) -> int, n: int)
    requires
        forall|sq: int, d: int| #[trigger] f(sq, d) >= 0,
    ensures
        board_sum(f, n) >= 0,
        board_sum(f, n) > 0 <==> exists|sq: int, d: int|
            0 <= sq < n && is_playable(sq) && 0 <= d < 4 && #[trigger] f(sq, d) > 0,
    decreases n,
{
    if n > 0 {
        lemma_board_sum_positive(f, n - 1);
        let sq = n - 1;
        if is_playable(sq) {
            reveal_with_fuel(dir_sum, 5);
            if dir_sum(f, sq, 4) > 0 {
                if f(sq, 0) > 0 {
                    assert(f(sq, 0) > 0);
                } else if f(sq, 1) > 0 {
                    assert(f(sq, 1) > 0);
                } else if f(sq, 2) > 0 {
                    assert(f(sq, 2) > 0);
                } else {
                    assert(f(sq, 3) > 0);
                }
            }
        }
    }
}

fn step_of(dir: usize) -> (r: i32)
    requires
        dir < 4,
    ensures
        r == step(dir as int),
        1 <= r <= STRIDE + 1,
{
    if dir == 0 {
        1
    } else if dir == 1 {
        STRIDE
    } else if dir == 2 {
        STRIDE + 1
    } else {
        STRIDE - 1
    }
}

/// Reads the `k`-th cell of the line from the playable square `sq` in direction `dir`.
fn cell_at(pos: &Pos, sq: Square, dir: usize, k: i32) -> (r: Color)
    requires
        pos@.wf(),
        is_playable(sq as int),
        dir < 4,
        0 <= k <= 5,
    ensures
        r == at(pos@.cells, sq as int, dir as int, k as int),
{
    let st = step_of(dir);
    assert(0 <= k * st <= 5 * (STRIDE + 1)) by (nonlinear_arith)
        requires
            0 <= k <= 5,
            1 <= st <= STRIDE + 1,
    ;
    pos.cell(sq + k * st)
}

/// Whether `sd` has five in a row anywhere on the board.
pub fn check_pattern5(pos: &Pos, sd: Side) -> (r: bool)
    requires
        pos@.wf(),
    ensures
        r == has_five(pos@.cells, sd),
{
    let ghost f = five_ind(pos@.cells, sd);
    let mut n: i32 = 0;
    for rk in 0..RANK_SIZE
        invariant
            pos@.wf(),
            f == five_ind(pos@.cells, sd),
            n == board_sum(f, rk * STRIDE),
            0 <= n <= rk * STRIDE * 4,
    {
        for fl in 0..FILE_SIZE
            invariant
                0 <= rk < RANK_SIZE,
                pos@.wf(),
                f == five_ind(pos@.cells, sd),
                n == board_sum(f, rk * STRIDE + fl),
                0 <= n <= (rk * STRIDE + fl) * 4,
        {
            let sq: Square = square_make(fl, rk);
            for dir in 0..4
                invariant
                    0 <= rk < RANK_SIZE,
                    0 <= fl < FILE_SIZE,
                    sq == rk * STRIDE + fl,
                    pos@.wf(),
                    f == five_ind(pos@.cells, sd),
                    n == board_sum(f, sq as int) + dir_sum(f, sq as int, dir as int),
                    0 <= n <= sq * 4 + dir,
            {
                let val0 = cell_at(pos, sq, dir, 0);
                let val1 = cell_at(pos, sq, dir, 1);
                let val2 = cell_at(pos, sq, dir, 2);
                let val3 = cell_at(pos, sq, dir, 3);
                let val4 = cell_at(pos, sq, dir, 4);
                if val0 == sd && val1 == sd && val2 == sd && val3 == sd && val4 == sd {
                    n += 1;
                }
            }
        }
        assert(board_sum(f, rk * STRIDE + 16) == board_sum(f, rk * STRIDE + 15));
    }
    proof {
        lemma_board_sum_positive(f, PLAY_END as int);
        if n > 0 {
            let (sq, d) = choose|sq: int, d: int|
                0 <= sq < PLAY_END && is_playable(sq) && 0 <= d < 4 && #[trigger] f(sq, d) > 0;
            assert(five(pos@.cells, sq, d, sd));
        }
        if has_five(pos@.cells, sd) {
            let (sq, d) = choose|sq: int, d: int|
                is_playable(sq) && 0 <= d < 4 && #[trigger] five(pos@.cells, sq, d, sd);
            assert(f(sq, d) > 0);
        }
    }
    n > 0
}

/// Whether `sd` has the shape `-OOOO-` anywhere on the board.
pub fn check_patternlive4(pos: &Pos, sd: Side) -> (r: bool)
    requires
        pos@.wf(),
    ensures
        r == has_open_four(pos@.cells, sd),
{
    let ghost f = open_four_ind(pos@.cells, sd);
    let mut n: i32 = 0;
    for rk in 0..RANK_SIZE
        invariant
            pos@.wf(),
            f == open_four_ind(pos@.cells, sd),
            n == board_sum(f, rk * STRIDE),
            0 <= n <= rk * STRIDE * 4,
    {
        for fl in 0..FILE_SIZE
            invariant
                0 <= rk < RANK_SIZE,
                pos@.wf(),
                f == open_four_ind(pos@.cells, sd),
                n == board_sum(f, rk * STRIDE + fl),
                0 <= n <= (rk * STRIDE + fl) * 4,
        {
            let sq: Square = square_make(fl, rk);
            for dir in 0..4
                invariant
                    0 <= rk < RANK_SIZE,
                    0 <= fl < FILE_SIZE,
                    sq == rk * STRIDE + fl,
                    pos@.wf(),
                    f == open_four_ind(pos@.cells, sd),
                    n == board_sum(f, sq as int) + dir_sum(f, sq as int, dir as int),
                    0 <= n <= sq * 4 + dir,
            {
                let val0 = cell_at(pos, sq, dir, 0);
                let val1 = cell_at(pos, sq, dir, 1);
                let val2 = cell_at(pos, sq, dir, 2);
                let val3 = cell_at(pos, sq, dir, 3);
                let val4 = cell_at(pos, sq, dir, 4);
                let val5 = cell_at(pos, sq, dir, 5);
                if val0 == Color::Empty && val1 == sd && val2 == sd && val3 == sd && val4 == sd
                    && val5 == Color::Empty {
                    n += 1;
                }
            }
        }
        assert(board_sum(f, rk * STRIDE + 16) == board_sum(f, rk * STRIDE + 15));
    }
    proof {
        lemma_board_sum_positive(f, PLAY_END as int);
        if n > 0 {
            let (sq, d) = choose|sq: int, d: int|
                0 <= sq < PLAY_END && is_playable(sq) && 0 <= d < 4 && #[trigger] f(sq, d) > 0;
            assert(open_four(pos@.cells, sq, d, sd));
        }
        if has_open_four(pos@.cells, sd) {
            let (sq, d) = choose|sq: int, d: int|
                is_playable(sq) && 0 <= d < 4 && #[trigger] open_four(pos@.cells, sq, d, sd);
            assert(f(sq, d) > 0);
        }
    }
    n > 0
}

/// Number of closed fours of `sd` over the board.
pub fn check_patterndead4(pos: &Pos, sd: Side) -> (r: i32)
    requires
        pos@.wf(),
    ensures
        r == closed_four_count(pos@.cells, sd),
        0 <= r,
{
    let ghost f = closed_four_fn(pos@.cells, sd);
    let mut n: i32 = 0;
    for rk in 0..RANK_SIZE
        invariant
            pos@.wf(),
            f == closed_four_fn(pos@.cells, sd),
            n == board_sum(f, rk * STRIDE),
            0 <= n <= rk * STRIDE * 20,
    {
        for fl in 0..FILE_SIZE
            invariant
                0 <= rk < RANK_SIZE,
                pos@.wf(),
                f == closed_four_fn(pos@.cells, sd),
                n == board_sum(f, rk * STRIDE + fl),
                0 <= n <= (rk * STRIDE + fl) * 20,
        {
            let sq: Square = square_make(fl, rk);
            for dir in 0..4
                invariant
                    0 <= rk < RANK_SIZE,
                    0 <= fl < FILE_SIZE,
                    sq == rk * STRIDE + fl,
                    pos@.wf(),
                    f == closed_four_fn(pos@.cells, sd),
                    n == board_sum(f, sq as int) + dir_sum(f, sq as int, dir as int),
                    0 <= n <= sq * 20 + dir * 5,
            {
                let val0 = cell_at(pos, sq, dir, 0);
                let val1 = cell_at(pos, sq, dir, 1);
                let val2 = cell_at(pos, sq, dir, 2);
                let val3 = cell_at(pos, sq, dir, 3);
                let val4 = cell_at(pos, sq, dir, 4);
                let ghost n0 = n;
                let e = Color::Empty;
                if val0 == sd && val1 == sd && val2 == sd && val3 == sd && val4 == e {
                    n += 1;
                }
                if val0 == sd && val1 == sd && val2 == sd && val3 == e && val4 == sd {
                    n += 1;
                }
                if val0 == sd && val1 == sd && val2 == e && val3 == sd && val4 == sd {
                    n += 1;
                }
                if val0 == sd && val1 == e && val2 == sd && val3 == sd && val4 == sd {
                    n += 1;
                }
                if val0 == e && val1 == sd && val2 == sd && val3 == sd && val4 == sd {
                    n += 1;
                }
                proof {
                    lemma_closed_fours_window(pos@.cells, sq as int, dir as int, sd);
                }
            }
        }
        assert(board_sum(f, rk * STRIDE + 16) == board_sum(f, rk * STRIDE + 15));
    }
    n
}

/// `closed_fours` spelled out cell by cell.
proof fn lemma_closed_fours_window(cells: Seq<Color>, sq: int, d: int, sd: Color)
    ensures
        ({
            let (v0, v1, v2, v3, v4) = (
                at(cells, sq, d, 0),
                at(cells, sq, d, 1),
                at(cells, sq, d, 2),
                at(cells, sq, d, 3),
                at(cells, sq, d, 4),
            );
            let e = Color::Empty;
            closed_fours(cells, sq, d, sd) == ind(
                v0 == sd && v1 == sd && v2 == sd && v3 == sd && v4 == e,
            ) + ind(v0 == sd && v1 == sd && v2 == sd && v3 == e && v4 == sd) + ind(
                v0 == sd && v1 == sd && v2 == e && v3 == sd && v4 == sd,
            ) + ind(v0 == sd && v1 == e && v2 == sd && v3 == sd && v4 == sd) + ind(
                v0 == e && v1 == sd && v2 == sd && v3 == sd && v4 == sd,
            )
        }),
{
    let (v0, v1, v2, v3, v4) = (
        at(cells, sq, d, 0),
        at(cells, sq, d, 1),
        at(cells, sq, d, 2),
        at(cells, sq, d, 3),
        at(cells, sq, d, 4),
    );
    assert forall|gap: int| 0 <= gap < 5 implies four_with_gap(cells, sq, d, sd, gap) == (
    v0 == (if gap == 0 {
        Color::Empty
    } else {
        sd
    }) && v1 == (if gap == 1 {
        Color::Empty
    } else {
        sd
    }) && v2 == (if gap == 2 {
        Color::Empty
    } else {
        sd
    }) && v3 == (if gap == 3 {
        Color::Empty
    } else {
        sd
    }) && v4 == (if gap == 4 {
        Color::Empty
    } else {
        sd
    })) by {
        if four_with_gap(cells, sq, d, sd, gap) {
            assert(at(cells, sq, d, 0) == v0);
        }
    }
}

/// Number of open threes of `sd` over the board.
pub fn check_patternlive3(pos: &Pos, sd: Side) -> (r: i32)
    requires
        pos@.wf(),
    ensures
        r == open_three_count(pos@.cells, sd),
        0 <= r,
{
    let ghost f = open_three_fn(pos@.cells, sd);
    let mut n: i32 = 0;
    for rk in 0..RANK_SIZE
        invariant
            pos@.wf(),
            f == open_three_fn(pos@.cells, sd),
            n == board_sum(f, rk * STRIDE),
            0 <= n <= rk * STRIDE * 12,
    {
        for fl in 0..FILE_SIZE
            invariant
                0 <= rk < RANK_SIZE,
                pos@.wf(),
                f == open_three_fn(pos@.cells, sd),
                n == board_sum(f, rk * STRIDE + fl),
                0 <= n <= (rk * STRIDE + fl) * 12,
        {
            let sq: Square = square_make(fl, rk);
            for dir in 0..4
                invariant
                    0 <= rk < RANK_SIZE,
                    0 <= fl < FILE_SIZE,
                    sq == rk * STRIDE + fl,
                    pos@.wf(),
                    f == open_three_fn(pos@.cells, sd),
                    n == board_sum(f, sq as int) + dir_sum(f, sq as int, dir as int),
                    0 <= n <= sq * 12 + dir * 3,
            {
                let val0 = cell_at(pos, sq, dir, 0);
                let val1 = cell_at(pos, sq, dir, 1);
                let val2 = cell_at(pos, sq, dir, 2);
                let val3 = cell_at(pos, sq, dir, 3);
                let val4 = cell_at(pos, sq, dir, 4);
                let val5 = cell_at(pos, sq, dir, 5);
                let e = Color::Empty;
                if val0 == e && val1 == sd && val2 == sd && val3 == sd && val4 == e {
                    n += 1;
                }
                if val0 == e && val1 == sd && val2 == sd && val3 == e && val4 == sd && val5 == e {
                    n += 1;
                }
                if val0 == e && val1 == sd && val2 == e && val3 == sd && val4 == sd && val5 == e {
                    n += 1;
                }
            }
        }
        assert(board_sum(f, rk * STRIDE + 16) == board_sum(f, rk * STRIDE + 15));
    }
    n
}

/// File change per step along direction `d`.
pub open spec fn file_step(d: int) -> int {
    if d == 1 {
        0
    } else if d == 3 {
        -1
    } else {
        1
    }
}

/// Rank change per step along direction `d`.
pub open spec fn rank_step(d: int) -> int {
    if d == 0 {
        0
    } else {
        1
    }
}

pub open spec fn on_grid(fl: int, rk: int) -> bool {
    0 <= fl < FILE_SIZE && 0 <= rk < RANK_SIZE
}

/// The cell at file `fl` and rank `rk` of the 15x15 grid; `Border` off the grid.
pub open spec fn grid(cells: Seq<Color>, fl: int, rk: int) -> Color {
    if on_grid(fl, rk) {
        cells[square_of(fl, rk)]
    } else {
        Color::Border
    }
}

/// Five grid cells from (`fl`, `rk`) along direction `d` all hold `sd`.
pub open spec fn run_of_five(cells: Seq<Color>, fl: int, rk: int, d: int, sd: Color) -> bool {
    forall|k: int|
        0 <= k < 5 ==> #[trigger] grid(cells, fl + k * file_step(d), rk + k * rank_step(d)) == sd
}

/// An unbroken run of five stones of `sd` along a row, a column or a diagonal of the grid.
pub open spec fn has_run_of_five(cells: Seq<Color>, sd: Color) -> bool {
    exists|fl: int, rk: int, d: int|
        on_grid(fl, rk) && 0 <= d < 4 && #[trigger] run_of_five(cells, fl, rk, d, sd)
}

/// The `k`-th cell of a line of the padded board is the `k`-th grid cell along the
/// same direction while that one is on the grid; the first step off the grid lands
/// on the frame.
proof fn lemma_line_cell(v: PosView, fl: int, rk: int, d: int, k: int)
    requires
        v.wf(),
        on_grid(fl, rk),
        0 <= d < 4,
        0 <= k <= 5,
        k > 0 ==> on_grid(fl + (k - 1) * file_step(d), rk + (k - 1) * rank_step(d)),
    ensures
        ({
            let f = fl + k * file_step(d);
            let r = rk + k * rank_step(d);
            &&& on_grid(f, r) ==> at(v.cells, square_of(fl, rk), d, k) == grid(v.cells, f, r)
            &&& !on_grid(f, r) ==> at(v.cells, square_of(fl, rk), d, k) == Color::Border
        }),
{
    let f = fl + k * file_step(d);
    let r = rk + k * rank_step(d);
    let i = square_of(fl, rk) + k * step(d);
    assert(i == square_of(f, r)) by {
        assert(k * step(d) == k * rank_step(d) * STRIDE + k * file_step(d)) by (nonlinear_arith)
            requires
                step(d) == rank_step(d) * STRIDE + file_step(d),
        ;
    }
    if k > 0 {
        let pf = fl + (k - 1) * file_step(d);
        let pr = rk + (k - 1) * rank_step(d);
        assert(k * file_step(d) == (k - 1) * file_step(d) + file_step(d)) by (nonlinear_arith);
        assert(k * rank_step(d) == (k - 1) * rank_step(d) + rank_step(d)) by (nonlinear_arith);
        assert(0 <= i < SQUARE_SIZE);
        if !on_grid(f, r) {
            assert(!is_playable(i));
        }
    }
}

/// The scan for five finds exactly the unbroken runs of five on the grid.
pub proof fn lemma_five_is_a_grid_run(v: PosView, sd: Color)
    requires
        v.wf(),
        is_side(sd),
    ensures
        has_five(v.cells, sd) == has_run_of_five(v.cells, sd),
{
    if has_five(v.cells, sd) {
        let (sq, d) = choose|sq: int, d: int|
            is_playable(sq) && 0 <= d < 4 && #[trigger] five(v.cells, sq, d, sd);
        let fl = sq % STRIDE as int;
        let rk = sq / STRIDE as int;
        assert(sq == square_of(fl, rk));
        lemma_line_cell(v, fl, rk, d, 0);
        lemma_line_cell(v, fl, rk, d, 1);
        lemma_line_cell(v, fl, rk, d, 2);
        lemma_line_cell(v, fl, rk, d, 3);
        lemma_line_cell(v, fl, rk, d, 4);
        assert forall|k: int| 0 <= k < 5 implies #[trigger] grid(
            v.cells,
            fl + k * file_step(d),
            rk + k * rank_step(d),
        ) == sd by {
            lemma_line_cell(v, fl, rk, d, k);
        }
        assert(run_of_five(v.cells, fl, rk, d, sd));
    }
    if has_run_of_five(v.cells, sd) {
        let (fl, rk, d) = choose|fl: int, rk: int, d: int|
            on_grid(fl, rk) && 0 <= d < 4 && #[trigger] run_of_five(v.cells, fl, rk, d, sd);
        let sq = square_of(fl, rk);
        assert forall|k: int| 0 <= k < 5 implies at(v.cells, sq, d, k) == sd by {
            assert(grid(v.cells, fl + k * file_step(d), rk + k * rank_step(d)) == sd);
            if k > 0 {
                assert(grid(
                    v.cells,
                    fl + (k - 1) * file_step(d),
                    rk + (k - 1) * rank_step(d),
                ) == sd);
            }
            lemma_line_cell(v, fl, rk, d, k);
        }
        assert(five(v.cells, sq, d, sd));
    }
}

} // verus!
