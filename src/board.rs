//! The board position, the legal-move list and the move generator.
use rand::seq::SliceRandom;
use vstd::prelude::*;

verus! {

/// State of one cell: a stone of either side, an empty intersection, or the
/// padding frame that surrounds the playable grid.
#[derive(Clone, Copy, PartialEq, Eq, Structural, Debug)]
pub enum Color {
    Black,
    White,
    Empty,
    Border,
}

/// Index of a cell in the padded one-dimensional board.
pub type Square = i32;

/// A move is the square on which the side to move places a stone.
pub type Move = i32;

pub type Side = Color;

pub type Piece = Color;

pub const FILE_SIZE: i32 = 15;

pub const RANK_SIZE: i32 = 15;

/// Distance between two vertically adjacent cells: one padding cell per row.
pub const STRIDE: i32 = 16;

/// Cells of the padded board: 16 columns by 19 rows, plus a tail of 20 so that a
/// six-cell window from any playable cell stays inside the array.
pub const SQUARE_SIZE: usize = 324;

/// Number of playable cells, the capacity of a move list.
pub const MOVE_CAP: usize = 225;

/// First index past the last playable row.
pub const PLAY_END: i32 = 240;

pub const MOVE_NONE: Move = -1;

pub open spec fn is_side(c: Color) -> bool {
    c == Color::Black || c == Color::White
}

pub open spec fn opp(c: Color) -> Color {
    if c == Color::Black {
        Color::White
    } else {
        Color::Black
    }
}

pub open spec fn square_of(fl: int, rk: int) -> int {
    rk * (STRIDE as int) + fl
}

/// A square of the 15x15 grid, as opposed to the padding frame.
pub open spec fn is_playable(sq: int) -> bool {
    0 <= sq < PLAY_END as int && sq % (STRIDE as int) != 15
}

/// Mathematical model of a position: every cell of the padded board, and the side to move.
pub struct PosView {
    pub cells: Seq<Color>,
    pub turn: Color,
}

impl PosView {
    /// The frame holds `Border` and nothing else does; one of the two sides is to move.
    pub open spec fn wf(self) -> bool {
        &&& self.cells.len() == SQUARE_SIZE
        &&& is_side(self.turn)
        &&& forall|i: int| 0 <= i < SQUARE_SIZE ==> (#[trigger] self.cells[i] == Color::Border
            <==> !is_playable(i))
    }

    /// The side to move puts a stone on `sq`, and the turn passes.
    pub open spec fn play(self, sq: int) -> PosView {
        PosView { cells: self.cells.update(sq, self.turn), turn: opp(self.turn) }
    }

    /// The side that made the last move.
    pub open spec fn last_mover(self) -> Color {
        opp(self.turn)
    }
}

/// Playing on a playable empty square keeps a position well formed.
pub proof fn lemma_play_wf(v: PosView, m: int)
    requires
        v.wf(),
        is_playable(m),
        v.cells[m] == Color::Empty,
    ensures
        v.play(m).wf(),
{
    let w = v.play(m);
    assert forall|i: int| 0 <= i < SQUARE_SIZE implies (#[trigger] w.cells[i] == Color::Border
        <==> !is_playable(i)) by {
        if i != m {
            assert(w.cells[i] == v.cells[i]);
        }
    }
}

/// Number of playable squares below `n` that hold `c`.
pub open spec fn count_upto(cells: Seq<Color>, c: Color, n: int) -> int
    decreases n,
{
    if n <= 0 {
        0
    } else {
        count_upto(cells, c, n - 1) + if is_playable(n - 1) && cells[n - 1] == c {
            1int
        } else {
            0int
        }
    }
}

/// A playable square below `n` that holds `c` is counted.
pub proof fn lemma_count_positive(cells: Seq<Color>, c: Color, n: int, sq: int)
    requires
        0 <= sq < n,
        is_playable(sq),
        cells[sq] == c,
    ensures
        count_upto(cells, c, n) >= 1,
    decreases n,
{
    lemma_count_nonneg(cells, c, n - 1);
    if sq < n - 1 {
        lemma_count_positive(cells, c, n - 1, sq);
    }
}

proof fn lemma_count_nonneg(cells: Seq<Color>, c: Color, n: int)
    ensures
        count_upto(cells, c, n) >= 0,
    decreases n,
{
    if n > 0 {
        lemma_count_nonneg(cells, c, n - 1);
    }
}

/// Number of playable squares of the board that hold `c`.
pub open spec fn count_of(cells: Seq<Color>, c: Color) -> int {
    count_upto(cells, c, PLAY_END as int)
}

/// A position: the padded board and the side to move.
#[derive(Clone, Copy)]
pub struct Pos {
    state: [Color; SQUARE_SIZE],
    p_turn: Side,
}

impl View for Pos {
    type V = PosView;

    closed spec fn view(&self) -> PosView {
        PosView { cells: self.state@, turn: self.p_turn }
    }
}

/// The square at file `fl` and rank `rk`.
pub fn square_make(fl: i32, rk: i32) -> (r: Square)
    requires
        0 <= fl <= STRIDE,
        0 <= rk <= RANK_SIZE,
    ensures
        r == square_of(fl as int, rk as int),
{
    rk * STRIDE + fl
}

/// The other side.
pub fn side_opp(sd: Side) -> (r: Side)
    requires
        is_side(sd),
    ensures
        r == opp(sd),
        is_side(r),
{
    match sd {
        Color::White => Color::Black,
        Color::Black => Color::White,
        Color::Empty => Color::Black,
        Color::Border => Color::Black,
    }
}

impl Pos {
    /// The starting position: every playable cell empty, the frame filled, Black to move.
    pub fn new() -> (r: Pos)
        ensures
            r@.wf(),
            r@.turn == Color::Black,
            forall|sq: int| is_playable(sq) ==> #[trigger] r@.cells[sq] == Color::Empty,
    {
        let mut p = Pos { state: [Color::Border; SQUARE_SIZE], p_turn: Color::Black };
        p.init();
        p
    }

    /// Resets `self` to the starting position.
    pub fn init(&mut self)
        ensures
            final(self)@.wf(),
            final(self)@.turn == Color::Black,
            forall|sq: int| is_playable(sq) ==> #[trigger] final(self)@.cells[sq] == Color::Empty,
    {
        for i in 0..SQUARE_SIZE
            invariant
                self.state@.len() == SQUARE_SIZE,
                forall|j: int| 0 <= j < i ==> self.state@[j] == Color::Border,
        {
            self.state[i] = Color::Border;
        }
        for rk in 0..RANK_SIZE
            invariant
                self.state@.len() == SQUARE_SIZE,
                forall|j: int|
                    0 <= j < SQUARE_SIZE ==> #[trigger] self.state@[j] == if is_playable(j) && j
                        < rk * STRIDE {
                        Color::Empty
                    } else {
                        Color::Border
                    },
        {
            for fl in 0..FILE_SIZE
                invariant
                    0 <= rk < RANK_SIZE,
                    self.state@.len() == SQUARE_SIZE,
                    forall|j: int|
                        0 <= j < SQUARE_SIZE ==> #[trigger] self.state@[j] == if is_playable(j)
                            && j < rk * STRIDE + fl {
                            Color::Empty
                        } else {
                            Color::Border
                        },
            {
                let sq: Square = square_make(fl, rk);
                self.state[sq as usize] = Color::Empty;
            }
        }
        self.p_turn = Color::Black;
    }

    /// Places a stone of the side to move on the empty square `mv` and passes the turn.
    pub fn do_move(&mut self, mv: Move)
        requires
            old(self)@.wf(),
            is_playable(mv as int),
            old(self)@.cells[mv as int] == Color::Empty,
        ensures
            final(self)@ == old(self)@.play(mv as int),
            final(self)@.wf(),
            final(self)@.turn == opp(old(self)@.turn),
            final(self)@.turn != old(self)@.turn,
            final(self)@.cells[mv as int] == old(self)@.turn,
            forall|i: int| 0 <= i < SQUARE_SIZE && i != mv ==> #[trigger] final(self)@.cells[i]
                == old(self)@.cells[i],
    {
        let atk: Side = self.p_turn;
        let def: Side = side_opp(atk);
        match self.p_turn {
            Color::Black => {
                self.state[mv as usize] = Color::Black;
            },
            Color::White => {
                self.state[mv as usize] = Color::White;
            },
            Color::Empty => {},
            Color::Border => {},
        }
        self.p_turn = def;
    }

    /// The side to move.
    pub fn turn(&self) -> (r: Side)
        ensures
            r == self@.turn,
    {
        self.p_turn
    }

    /// The state of cell `sq`.
    pub fn cell(&self, sq: Square) -> (r: Color)
        requires
            0 <= sq < SQUARE_SIZE,
        ensures
            r == self@.cells[sq as int],
    {
        self.state[sq as usize]
    }

    /// Whether a stone can be placed on `from`: it is empty.
    pub fn can_play(&self, from: Square) -> (r: bool)
        requires
            0 <= from < SQUARE_SIZE,
        ensures
            r == (self@.cells[from as int] == Color::Empty),
    {
        if self.state[from as usize] == Color::Empty {
            true
        } else {
            false
        }
    }

    /// Number of playable cells that hold `pc`.
    pub fn count(&self, pc: Piece) -> (r: i32)
        ensures
            r == count_of(self@.cells, pc),
            0 <= r <= MOVE_CAP,
    {
        let mut n: i32 = 0;
        for rk in 0..RANK_SIZE
            invariant
                self.state@.len() == SQUARE_SIZE,
                n == count_upto(self@.cells, pc, rk * STRIDE),
                0 <= n <= rk * FILE_SIZE,
        {
            for fl in 0..FILE_SIZE
                invariant
                    0 <= rk < RANK_SIZE,
                    self.state@.len() == SQUARE_SIZE,
                    n == count_upto(self@.cells, pc, rk * STRIDE + fl),
                    0 <= n <= rk * FILE_SIZE + fl,
            {
                let sq: Square = square_make(fl, rk);
                if self.state[sq as usize] == pc {
                    n += 1;
                }
            }
            assert(count_upto(self@.cells, pc, rk * STRIDE + 16) == count_upto(
                self@.cells,
                pc,
                rk * STRIDE + 15,
            ));
        }
        n
    }
}

/// Playable empty squares below `n`, in increasing order.
pub open spec fn empties_upto(cells: Seq<Color>, n: int) -> Seq<Move>
    decreases n,
{
    if n <= 0 {
        Seq::empty()
    } else if is_playable(n - 1) && cells[n - 1] == Color::Empty {
        empties_upto(cells, n - 1).push((n - 1) as Move)
    } else {
        empties_upto(cells, n - 1)
    }
}

/// The legal moves of a board in scan order: its playable empty squares, row by row.
pub open spec fn legal_moves(cells: Seq<Color>) -> Seq<Move> {
    empties_upto(cells, PLAY_END as int)
}

/// The legal moves below `n` are exactly the playable empty squares below `n`.
pub proof fn lemma_empties_upto(cells: Seq<Color>, n: int)
    requires
        n <= PLAY_END,
        cells.len() == SQUARE_SIZE,
    ensures
        forall|j: int|
            0 <= j < empties_upto(cells, n).len() ==> {
                let m = #[trigger] empties_upto(cells, n)[j] as int;
                0 <= m < n && is_playable(m) && cells[m] == Color::Empty
            },
        forall|sq: int|
            0 <= sq < n && is_playable(sq) && cells[sq] == Color::Empty ==> #[trigger] empties_upto(
                cells,
                n,
            ).contains(sq as Move),
    decreases n,
{
    if n > 0 {
        lemma_empties_upto(cells, n - 1);
        let prev = empties_upto(cells, n - 1);
        let cur = empties_upto(cells, n);
        assert forall|sq: int|
            0 <= sq < n && is_playable(sq) && cells[sq] == Color::Empty implies cur.contains(
            sq as Move,
        ) by {
            if sq < n - 1 {
                assert(prev.contains(sq as Move));
                let j = choose|j: int| 0 <= j < prev.len() && prev[j] == sq as Move;
                assert(cur[j] == sq as Move);
            } else {
                assert(cur[cur.len() - 1] == sq as Move);
            }
        }
    }
}

/// The legal moves are exactly the playable empty squares.
pub proof fn lemma_legal_moves(cells: Seq<Color>)
    requires
        cells.len() == SQUARE_SIZE,
    ensures
        forall|m: Move|
            #[trigger] legal_moves(cells).contains(m) <==> is_playable(m as int) && cells[m as int]
                == Color::Empty,
{
    lemma_empties_upto(cells, PLAY_END as int);
    let s = legal_moves(cells);
    assert forall|m: Move| #[trigger] s.contains(m) implies is_playable(m as int) && cells[m as int]
        == Color::Empty by {
        let j = choose|j: int| 0 <= j < s.len() && s[j] == m;
        assert(s[j] == m);
    }
    assert forall|m: Move| is_playable(m as int) && cells[m as int] == Color::Empty implies #[trigger] s.contains(m) by {
        assert(empties_upto(cells, PLAY_END as int).contains((m as int) as Move));
    }
}

/// A fixed-capacity list of moves.
pub struct List {
    p_move: [Move; MOVE_CAP],
    p_size: i32,
}

impl View for List {
    type V = Seq<Move>;

    closed spec fn view(&self) -> Seq<Move> {
        self.p_move@.subrange(0, self.p_size as int)
    }
}

impl List {
    /// The count never exceeds the capacity.
    pub closed spec fn wf(&self) -> bool {
        0 <= self.p_size <= MOVE_CAP
    }

    /// An empty list.
    pub fn new() -> (r: List)
        ensures
            r.wf(),
            r@ == Seq::<Move>::empty(),
    {
        List { p_move: [0; MOVE_CAP], p_size: 0 }
    }

    /// Empties the list.
    pub fn clear(&mut self)
        ensures
            final(self).wf(),
            final(self)@ == Seq::<Move>::empty(),
    {
        self.p_size = 0;
    }

    /// Appends `mv`; the list must have room for it.
    pub fn add(&mut self, mv: Move)
        requires
            old(self).wf(),
            old(self)@.len() < MOVE_CAP,
        ensures
            final(self).wf(),
            final(self)@ == old(self)@.push(mv),
    {
        self.p_move[self.p_size as usize] = mv;
        self.p_size += 1;
        assert(self@ =~= old(self)@.push(mv));
    }

    /// Number of moves in the list.
    pub fn size(&self) -> (r: i32)
        requires
            self.wf(),
        ensures
            r == self@.len(),
            0 <= r <= MOVE_CAP,
    {
        self.p_size
    }

    /// The move at position `i`.
    pub fn get(&self, i: i32) -> (r: Move)
        requires
            self.wf(),
            0 <= i < self@.len(),
        ensures
            r == self@[i as int],
    {
        self.p_move[i as usize]
    }

    /// Puts the moves in a random order.
    pub fn shuffle(&mut self)
        requires
            old(self).wf(),
        ensures
            final(self).wf(),
            final(self)@.len() == old(self)@.len(),
            final(self)@.to_multiset() == old(self)@.to_multiset(),
    {
        let num = self.p_size;
        let mut new_move: Vec<Move> = Vec::new();
        for x in 0..(num as usize)
            invariant
                self.wf(),
                num == self.p_size,
                new_move@ == self@.subrange(0, x as int),
        {
            new_move.push(self.p_move[x]);
        }
        assert(new_move@ =~= self@);
        shuffle_moves(&mut new_move);
        let ghost shuffled = new_move@;
        for x in 0..(num as usize)
            invariant
                self.wf(),
                num == self.p_size,
                new_move@ == shuffled,
                shuffled.len() == num,
                forall|j: int| 0 <= j < x ==> self.p_move@[j] == shuffled[j],
        {
            self.p_move[x] = new_move[x];
        }
        assert(self@ =~= shuffled);
    }
}

/// Relies on rand's `SliceRandom::shuffle` driven by `thread_rng`: it only swaps
/// elements of the slice, so the result is a permutation of the input. (`thread_rng`
/// panics only when the operating system cannot seed it.)
#[verifier::external_body]
fn shuffle_moves(v: &mut Vec<Move>)
    ensures
        final(v)@.len() == old(v)@.len(),
        final(v)@.to_multiset() == old(v)@.to_multiset(),
{
    let mut rng = rand::thread_rng();
    v.as_mut_slice().shuffle(&mut rng);
}

/// Fills `list` with every legal move of `pos`, in scan order.
pub fn gen_moves(list: &mut List, pos: &Pos)
    requires
        pos@.wf(),
    ensures
        final(list).wf(),
        final(list)@ == legal_moves(pos@.cells),
{
    list.clear();
    for rk in 0..RANK_SIZE
        invariant
            pos@.wf(),
            list.wf(),
            list@ == empties_upto(pos@.cells, rk * STRIDE),
            list@.len() <= rk * FILE_SIZE,
    {
        for fl in 0..FILE_SIZE
            invariant
                0 <= rk < RANK_SIZE,
                pos@.wf(),
                list.wf(),
                list@ == empties_upto(pos@.cells, rk * STRIDE + fl),
                list@.len() <= rk * FILE_SIZE + fl,
        {
            let sq: Square = square_make(fl, rk);
            if pos.can_play(sq) {
                list.add(sq);
            }
        }
    }
}

} // verus!
