use vstd::prelude::*;
use crate::board::{
    cleared_rows, empty_row, fits_in, full_count, locked_rows, lemma_kept_len, Board, RowView,
};
use crate::piece::{
    cells_at, color_of, lemma_in_frame_small, offsets_in_frame, place, pos_ok, rotate_spec, shape,
    Piece, PieceKind, BOARD_H, NUM_KINDS, SPAWN_X, SPAWN_Y,
};

verus! {

/// Relies on `rand::thread_rng` and `rand::Rng::gen_range`: a value drawn from
/// `0..bound`; `gen_range` panics on an empty range, hence `bound > 0`.
#[verifier::external_body]
fn random_below(bound: usize) -> (r: usize)
    requires
        bound > 0,
    ensures
        r < bound,
{
    rand::Rng::gen_range(&mut rand::thread_rng(), 0..bound)
}

/// A kind drawn uniformly at random; repeats are possible.
pub fn random_kind() -> PieceKind {
    PieceKind::from_index(random_below(NUM_KINDS))
}

/// Points for clearing `cleared` rows at `level`.
pub open spec fn award(cleared: int, level: int) -> int {
    if cleared == 1 {
        100 * level
    } else if cleared == 2 {
        300 * level
    } else if cleared == 3 {
        500 * level
    } else if cleared == 4 {
        800 * level
    } else {
        0
    }
}

/// `v`, capped at `max`.
pub open spec fn capped(v: int, max: int) -> int {
    if v > max {
        max
    } else {
        v
    }
}

/// Gravity period in milliseconds at `level`: 1000 less 80 per level above
/// the first, never below zero before the floor of 50 is applied.
pub open spec fn interval_spec(level: int) -> int {
    let dec = (level - 1) * 80;
    let base = if dec >= 1000 {
        0
    } else {
        1000 - dec
    };
    if base < 50 {
        50
    } else {
        base
    }
}

/// The kick offsets tried, in order, when rotating a piece of `kind`.
pub open spec fn kick_table(kind: PieceKind) -> Seq<(i32, i32)> {
    if kind == PieceKind::I {
        seq![(0i32, 0i32), (-1i32, 0i32), (1i32, 0i32), (-2i32, 0i32), (2i32, 0i32), (0i32, -1i32), (0i32, -2i32)]
    } else {
        seq![(0i32, 0i32), (-1i32, 0i32), (1i32, 0i32), (0i32, -1i32), (-1i32, -1i32), (1i32, -1i32)]
    }
}

/// The lowest origin row reached by moving offsets `offs` at column `x` down
/// one row at a time from row `y` while they still fit.
pub open spec fn drop_y(rows: Seq<RowView>, offs: Seq<(i32, i32)>, x: int, y: int) -> int
    decreases BOARD_H - y,
{
    if y < BOARD_H && pos_ok(y + 1) && fits_in(rows, cells_at(offs, x, y + 1)) {
        drop_y(rows, offs, x, y + 1)
    } else {
        y
    }
}

/// Whether the game's rotated current piece fits with its origin moved by `k`.
pub open spec fn kick_fits(g: Game, k: (i32, i32)) -> bool {
    let offs = rotate_spec(g.current.kind, g.current.cells@);
    let x = g.current.x + k.0;
    let y = g.current.y + k.1;
    pos_ok(x) && pos_ok(y) && fits_in(g.board.rows(), cells_at(offs, x, y))
}

/// The state of one game.
pub struct Game {
    pub board: Board,
    pub current: Piece,
    pub next: PieceKind,
    pub score: u64,
    pub lines: u32,
    pub level: u32,
    pub game_over: bool,
}

/// `new` is `old` with the current piece's offsets and position replaced.
pub open spec fn placed(old: Game, new: Game, offs: Seq<(i32, i32)>, x: int, y: int) -> bool {
    &&& new.board == old.board
    &&& new.current.kind == old.current.kind
    &&& new.current.cells@ == offs
    &&& new.current.x == x
    &&& new.current.y == y
    &&& new.next == old.next
    &&& new.score == old.score
    &&& new.lines == old.lines
    &&& new.level == old.level
    &&& new.game_over == old.game_over
}

/// `new` follows from `old` by locking the current piece's kind at `cells`:
/// the board takes the cells and is cleared, lines, score and level are
/// brought up to date, the held kind is spawned, `next` is held, and the game
/// ends if the spawned piece does not fit.
pub open spec fn locks_into(old: Game, new: Game, cells: Seq<(i32, i32)>, next: PieceKind) -> bool {
    let locked = locked_rows(old.board.rows(), cells, color_of(old.current.kind));
    let n = full_count(locked);
    &&& new.board.rows() == cleared_rows(locked)
    &&& new.lines == capped(old.lines + n, u32::MAX as int)
    &&& new.score == capped(old.score + award(n, old.level as int), u64::MAX as int)
    &&& new.level == new.lines / 10 + 1
    &&& new.current.kind == old.next
    &&& new.current.cells@ == shape(old.next)
    &&& new.current.x == SPAWN_X
    &&& new.current.y == SPAWN_Y
    &&& new.next == next
    &&& new.game_over == !fits_in(new.board.rows(), new.current.abs_spec())
}

/// Points for clearing `cleared` rows at `level`: 100, 300, 500 or 800 times
/// the level for one to four rows, nothing otherwise.
pub fn line_clear_score(cleared: u32, level: u32) -> (r: u64)
    ensures
        r == award(cleared as int, level as int),
{
    let lv = level as u64;
    if cleared == 1 {
        100 * lv
    } else if cleared == 2 {
        300 * lv
    } else if cleared == 3 {
        500 * lv
    } else if cleared == 4 {
        800 * lv
    } else {
        0
    }
}

/// The kick offsets for `kind`, in the order they are tried.
fn kicks(kind: PieceKind) -> (r: Vec<(i32, i32)>)
    ensures
        r@ == kick_table(kind),
{
    let r = if kind == PieceKind::I {
        vec![(0, 0), (-1, 0), (1, 0), (-2, 0), (2, 0), (0, -1), (0, -2)]
    } else {
        vec![(0, 0), (-1, 0), (1, 0), (0, -1), (-1, -1), (1, -1)]
    };
    assert(r@ =~= kick_table(kind));
    r
}

/// Whether `p` is a valid origin coordinate, and the coordinate as `i32`.
fn origin(p: i64) -> (r: Option<i32>)
    ensures
        r is Some <==> pos_ok(p as int),
        r is Some ==> r->0 == p,
{
    if i32::MIN as i64 <= p && p <= (i32::MAX - 3) as i64 {
        Some(p as i32)
    } else {
        None
    }
}

/// Offsets that fit somewhere on the board leave their origin above the floor.
proof fn lemma_fit_above_floor(rows: Seq<RowView>, offs: Seq<(i32, i32)>, x: int, y: int)
    requires
        offs.len() > 0,
        crate::piece::offsets_small(offs),
        fits_in(rows, cells_at(offs, x, y)),
        pos_ok(x),
        pos_ok(y),
    ensures
        y < BOARD_H,
{
    let cells = cells_at(offs, x, y);
    assert(cells[0] == ((x + offs[0].0) as i32, (y + offs[0].1) as i32));
    assert(crate::board::free_in(rows, cells[0].0 as int, cells[0].1 as int));
}

/// A spawned piece fits on an empty board.
proof fn lemma_spawn_fits_empty(rows: Seq<RowView>, kind: PieceKind)
    requires
        rows == Seq::new(BOARD_H as nat, |i: int| empty_row()),
    ensures
        fits_in(rows, cells_at(shape(kind), SPAWN_X as int, SPAWN_Y as int)),
{
    let cells = cells_at(shape(kind), SPAWN_X as int, SPAWN_Y as int);
    assert forall|i: int| 0 <= i < cells.len() implies crate::board::free_in(
        rows,
        #[trigger] cells[i].0 as int,
        cells[i].1 as int,
    ) by {
        let y = cells[i].1 as int;
        if y >= 0 {
            assert(rows[y] == empty_row());
        }
    }
}

impl Game {
    /// The current piece is well formed, the level follows the line count,
    /// and until the game is over the current piece fits the board.
    pub open spec fn wf(&self) -> bool {
        &&& self.current.wf()
        &&& self.level == self.lines / 10 + 1
        &&& (!self.game_over ==> fits_in(self.board.rows(), self.current.abs_spec()))
    }

    /// A fresh game on an empty board, with `kind` in play and `next` held.
    pub fn with_pieces(kind: PieceKind, next: PieceKind) -> (r: Game)
        ensures
            r.wf(),
            r.board.rows() == Seq::new(BOARD_H as nat, |i: int| empty_row()),
            r.current.kind == kind,
            r.current.cells@ == shape(kind),
            r.current.x == SPAWN_X,
            r.current.y == SPAWN_Y,
            r.next == next,
            r.score == 0,
            r.lines == 0,
            r.level == 1,
            !r.game_over,
    {
        let board = Board::new();
        let current = Piece::new(kind);
        proof {
            lemma_spawn_fits_empty(board.rows(), kind);
        }
        Game { board, current, next, score: 0, lines: 0, level: 1, game_over: false }
    }

    /// A fresh game with both the current and the held kind drawn at random.
    pub fn new() -> (r: Game)
        ensures
            r.wf(),
            r.board.rows() == Seq::new(BOARD_H as nat, |i: int| empty_row()),
            r.current.cells@ == shape(r.current.kind),
            r.current.x == SPAWN_X,
            r.current.y == SPAWN_Y,
            r.score == 0,
            r.lines == 0,
            r.level == 1,
            !r.game_over,
    {
        let kind = random_kind();
        let next = random_kind();
        Game::with_pieces(kind, next)
    }

    /// Starts over with a fresh game.
    pub fn reset(&mut self)
        ensures
            final(self).wf(),
            final(self).board.rows() == Seq::new(BOARD_H as nat, |i: int| empty_row()),
            final(self).current.cells@ == shape(final(self).current.kind),
            final(self).current.x == SPAWN_X,
            final(self).current.y == SPAWN_Y,
            final(self).score == 0,
            final(self).lines == 0,
            final(self).level == 1,
            !final(self).game_over,
    {
        *self = Game::new();
    }

    /// Puts the held kind in play at the spawn position, holds `next`, and
    /// ends the game if the new piece does not fit.
    fn spawn_next(&mut self, next: PieceKind)
        requires
            !old(self).game_over,
            old(self).level == old(self).lines / 10 + 1,
        ensures
            final(self).wf(),
            final(self).board == old(self).board,
            final(self).current.kind == old(self).next,
            final(self).current.cells@ == shape(old(self).next),
            final(self).current.x == SPAWN_X,
            final(self).current.y == SPAWN_Y,
            final(self).next == next,
            final(self).score == old(self).score,
            final(self).lines == old(self).lines,
            final(self).level == old(self).level,
            final(self).game_over == !fits_in(
                final(self).board.rows(),
                final(self).current.abs_spec(),
            ),
    {
        self.current = Piece::new(self.next);
        self.next = next;
        let cells = self.current.absolute_cells();
        if !self.board.fits(cells.as_slice()) {
            self.game_over = true;
        }
    }

    /// Moves the current piece by (dx, dy) if it fits there, and says whether
    /// it moved. A finished game does not move.
    pub fn try_move(&mut self, dx: i32, dy: i32) -> (r: bool)
        requires
            old(self).wf(),
        ensures
            final(self).wf(),
            old(self).game_over ==> !r,
            !old(self).game_over ==> r == (pos_ok(old(self).current.x + dx) && pos_ok(
                old(self).current.y + dy,
            ) && fits_in(
                old(self).board.rows(),
                cells_at(
                    old(self).current.cells@,
                    old(self).current.x + dx,
                    old(self).current.y + dy,
                ),
            )),
            r ==> placed(
                *old(self),
                *final(self),
                old(self).current.cells@,
                old(self).current.x + dx,
                old(self).current.y + dy,
            ),
            !r ==> *final(self) == *old(self),
    {
        if self.game_over {
            return false;
        }
        let nx = match origin(self.current.x as i64 + dx as i64) {
            Some(v) => v,
            None => return false,
        };
        let ny = match origin(self.current.y as i64 + dy as i64) {
            Some(v) => v,
            None => return false,
        };
        proof {
            lemma_in_frame_small(self.current.kind, self.current.cells@);
        }
        let cells = place(&self.current.cells, nx, ny);
        if self.board.fits(cells.as_slice()) {
            self.current.x = nx;
            self.current.y = ny;
            true
        } else {
            false
        }
    }

    /// Rotates the current piece a quarter clockwise, trying the kick offsets
    /// of its kind in order and keeping the first position that fits; says
    /// whether it turned. The square piece always succeeds and stays as it is;
    /// no other piece turns in a finished game.
    pub fn try_rotate(&mut self) -> (r: bool)
        requires
            old(self).wf(),
        ensures
            final(self).wf(),
            old(self).current.kind == PieceKind::O ==> r && *final(self) == *old(self),
            old(self).game_over && old(self).current.kind != PieceKind::O ==> !r && *final(self)
                == *old(self),
            !old(self).game_over && old(self).current.kind != PieceKind::O ==> (r <==> exists|
                j: int,
            |
                0 <= j < kick_table(old(self).current.kind).len() && #[trigger] kick_fits(
                    *old(self),
                    kick_table(old(self).current.kind)[j],
                )),
            !old(self).game_over && old(self).current.kind != PieceKind::O && r ==> exists|j: int|
                0 <= j < kick_table(old(self).current.kind).len() && #[trigger] kick_fits(
                    *old(self),
                    kick_table(old(self).current.kind)[j],
                ) && (forall|k: int|
                    0 <= k < j ==> !#[trigger] kick_fits(
                        *old(self),
                        kick_table(old(self).current.kind)[k],
                    )) && placed(
                    *old(self),
                    *final(self),
                    rotate_spec(old(self).current.kind, old(self).current.cells@),
                    old(self).current.x + kick_table(old(self).current.kind)[j].0,
                    old(self).current.y + kick_table(old(self).current.kind)[j].1,
                ),
            !r ==> *final(self) == *old(self),
    {
        if self.current.kind == PieceKind::O {
            return true;
        }
        if self.game_over {
            return false;
        }
        let rotated = self.current.rotated_cw();
        let ks = kicks(self.current.kind);
        proof {
            lemma_in_frame_small(self.current.kind, rotated@);
        }
        let mut i: usize = 0;
        while i < ks.len()
            invariant
                *self == *old(self),
                self.wf(),
                !self.game_over,
                self.current.kind != PieceKind::O,
                ks@ == kick_table(self.current.kind),
                rotated@ == rotate_spec(self.current.kind, self.current.cells@),
                offsets_in_frame(self.current.kind, rotated@),
                crate::piece::offsets_small(rotated@),
                i <= ks@.len(),
                forall|k: int| 0 <= k < i ==> !#[trigger] kick_fits(*self, ks@[k]),
            decreases ks@.len() - i,
        {
            let (kx, ky) = ks[i];
            let ox = origin(self.current.x as i64 + kx as i64);
            let oy = origin(self.current.y as i64 + ky as i64);
            if let (Some(nx), Some(ny)) = (ox, oy) {
                let cells = place(&rotated, nx, ny);
                if self.board.fits(cells.as_slice()) {
                    assert(kick_fits(*self, ks@[i as int]));
                    self.current.cells = rotated;
                    self.current.x = nx;
                    self.current.y = ny;
                    return true;
                }
            }
            assert(!kick_fits(*self, ks@[i as int]));
            i += 1;
        }
        false
    }

    /// Locks the current piece into the board, clears full rows, updates
    /// lines, score and level, puts the held kind in play and holds `next`.
    /// A finished game is left as it is.
    pub fn lock_and_advance_with(&mut self, next: PieceKind)
        requires
            old(self).wf(),
        ensures
            final(self).wf(),
            old(self).game_over ==> *final(self) == *old(self),
            !old(self).game_over ==> locks_into(
                *old(self),
                *final(self),
                old(self).current.abs_spec(),
                next,
            ),
    {
        if self.game_over {
            return;
        }
        let ghost start = *self;
        let cells = self.current.absolute_cells();
        let color = self.current.kind.color();
        self.board.lock(cells.as_slice(), color);
        let ghost locked = self.board.rows();
        let cleared = self.board.clear_lines();
        proof {
            lemma_kept_len(locked);
        }
        if cleared > 0 {
            self.lines = self.lines.saturating_add(cleared);
            self.score = self.score.saturating_add(line_clear_score(cleared, self.level));
            self.level = self.lines / 10 + 1;
        }
        self.spawn_next(next);
        assert(locks_into(start, *self, start.current.abs_spec(), next));
    }

    /// `lock_and_advance_with`, holding a kind drawn at random.
    pub fn lock_and_advance(&mut self)
        requires
            old(self).wf(),
        ensures
            final(self).wf(),
            old(self).game_over ==> *final(self) == *old(self),
            !old(self).game_over ==> locks_into(
                *old(self),
                *final(self),
                old(self).current.abs_spec(),
                final(self).next,
            ),
    {
        if self.game_over {
            return;
        }
        let next = random_kind();
        self.lock_and_advance_with(next);
    }

    /// Moves the current piece straight down as far as it fits, then locks it
    /// as `lock_and_advance_with` does. A finished game is left as it is.
    pub fn hard_drop_with(&mut self, next: PieceKind)
        requires
            old(self).wf(),
        ensures
            final(self).wf(),
            old(self).game_over ==> *final(self) == *old(self),
            !old(self).game_over ==> locks_into(
                *old(self),
                *final(self),
                cells_at(
                    old(self).current.cells@,
                    old(self).current.x as int,
                    drop_y(
                        old(self).board.rows(),
                        old(self).current.cells@,
                        old(self).current.x as int,
                        old(self).current.y as int,
                    ),
                ),
                next,
            ),
    {
        if self.game_over {
            return;
        }
        let ghost start = *self;
        let ghost target = drop_y(
            start.board.rows(),
            start.current.cells@,
            start.current.x as int,
            start.current.y as int,
        );
        proof {
            lemma_in_frame_small(self.current.kind, self.current.cells@);
            lemma_fit_above_floor(
                self.board.rows(),
                self.current.cells@,
                self.current.x as int,
                self.current.y as int,
            );
        }
        loop
            invariant
                self.wf(),
                !self.game_over,
                placed(start, *self, start.current.cells@, start.current.x as int, self.current.y as int),
                self.current.y < BOARD_H,
                drop_y(
                    start.board.rows(),
                    start.current.cells@,
                    start.current.x as int,
                    self.current.y as int,
                ) == target,
            ensures
                self.current.y == target,
            decreases BOARD_H - self.current.y,
        {
            if !self.try_move(0, 1) {
                assert(drop_y(
                    start.board.rows(),
                    start.current.cells@,
                    start.current.x as int,
                    self.current.y as int,
                ) == self.current.y);
                break;
            }
            proof {
                lemma_in_frame_small(self.current.kind, self.current.cells@);
                lemma_fit_above_floor(
                    self.board.rows(),
                    self.current.cells@,
                    self.current.x as int,
                    self.current.y as int,
                );
            }
        }
        assert(self.current.y == target);
        self.lock_and_advance_with(next);
    }

    /// `hard_drop_with`, holding a kind drawn at random.
    pub fn hard_drop(&mut self)
        requires
            old(self).wf(),
        ensures
            final(self).wf(),
            old(self).game_over ==> *final(self) == *old(self),
            !old(self).game_over ==> locks_into(
                *old(self),
                *final(self),
                cells_at(
                    old(self).current.cells@,
                    old(self).current.x as int,
                    drop_y(
                        old(self).board.rows(),
                        old(self).current.cells@,
                        old(self).current.x as int,
                        old(self).current.y as int,
                    ),
                ),
                final(self).next,
            ),
    {
        if self.game_over {
            return;
        }
        let next = random_kind();
        self.hard_drop_with(next);
    }

    /// One step of gravity: the current piece moves down a row if it fits
    /// there, and is otherwise locked as `lock_and_advance_with` does.
    /// A finished game is left as it is.
    pub fn step_down_with(&mut self, next: PieceKind)
        requires
            old(self).wf(),
        ensures
            final(self).wf(),
            old(self).game_over ==> *final(self) == *old(self),
            !old(self).game_over && pos_ok(old(self).current.y + 1) && fits_in(
                old(self).board.rows(),
                cells_at(
                    old(self).current.cells@,
                    old(self).current.x as int,
                    old(self).current.y + 1,
                ),
            ) ==> placed(
                *old(self),
                *final(self),
                old(self).current.cells@,
                old(self).current.x as int,
                old(self).current.y + 1,
            ),
            !old(self).game_over && !(pos_ok(old(self).current.y + 1) && fits_in(
                old(self).board.rows(),
                cells_at(
                    old(self).current.cells@,
                    old(self).current.x as int,
                    old(self).current.y + 1,
                ),
            )) ==> locks_into(*old(self), *final(self), old(self).current.abs_spec(), next),
    {
        if !self.try_move(0, 1) {
            self.lock_and_advance_with(next);
        }
    }

    /// `step_down_with`, holding a kind drawn at random if the piece locks.
    pub fn step_down(&mut self)
        requires
            old(self).wf(),
        ensures
            final(self).wf(),
            old(self).game_over ==> *final(self) == *old(self),
            !old(self).game_over && pos_ok(old(self).current.y + 1) && fits_in(
                old(self).board.rows(),
                cells_at(
                    old(self).current.cells@,
                    old(self).current.x as int,
                    old(self).current.y + 1,
                ),
            ) ==> placed(
                *old(self),
                *final(self),
                old(self).current.cells@,
                old(self).current.x as int,
                old(self).current.y + 1,
            ),
            !old(self).game_over && !(pos_ok(old(self).current.y + 1) && fits_in(
                old(self).board.rows(),
                cells_at(
                    old(self).current.cells@,
                    old(self).current.x as int,
                    old(self).current.y + 1,
                ),
            )) ==> locks_into(
                *old(self),
                *final(self),
                old(self).current.abs_spec(),
                final(self).next,
            ),
    {
        if !self.try_move(0, 1) {
            let next = random_kind();
            self.lock_and_advance_with(next);
        }
    }

    /// A gravity tick: when `elapsed_ms` has reached the period of the current
    /// level, takes one `step_down` and returns true; otherwise changes nothing.
    pub fn tick(&mut self, elapsed_ms: u64) -> (r: bool)
        requires
            old(self).wf(),
        ensures
            final(self).wf(),
            r == (elapsed_ms >= interval_spec(old(self).level as int)),
            !r || old(self).game_over ==> *final(self) == *old(self),
            r && !old(self).game_over && pos_ok(old(self).current.y + 1) && fits_in(
                old(self).board.rows(),
                cells_at(
                    old(self).current.cells@,
                    old(self).current.x as int,
                    old(self).current.y + 1,
                ),
            ) ==> placed(
                *old(self),
                *final(self),
                old(self).current.cells@,
                old(self).current.x as int,
                old(self).current.y + 1,
            ),
            r && !old(self).game_over && !(pos_ok(old(self).current.y + 1) && fits_in(
                old(self).board.rows(),
                cells_at(
                    old(self).current.cells@,
                    old(self).current.x as int,
                    old(self).current.y + 1,
                ),
            )) ==> locks_into(
                *old(self),
                *final(self),
                old(self).current.abs_spec(),
                final(self).next,
            ),
    {
        if elapsed_ms >= self.drop_interval_ms() {
            self.step_down();
            true
        } else {
            false
        }
    }

    /// Gravity period in milliseconds at the current level.
    pub fn drop_interval_ms(&self) -> (r: u64)
        requires
            self.wf(),
        ensures
            r == interval_spec(self.level as int),
    {
        let base: u64 = 1000;
        let min_interval: u64 = 50;
        let v = base.saturating_sub((self.level as u64 - 1) * 80);
        if v < min_interval {
            min_interval
        } else {
            v
        }
    }

    /// The cells the current piece would occupy after a hard drop; the game
    /// is not changed.
    pub fn ghost_cells(&self) -> (r: Vec<(i32, i32)>)
        requires
            self.wf(),
        ensures
            r@ == cells_at(
                self.current.cells@,
                self.current.x as int,
                drop_y(
                    self.board.rows(),
                    self.current.cells@,
                    self.current.x as int,
                    self.current.y as int,
                ),
            ),
    {
        let ghost target = drop_y(
            self.board.rows(),
            self.current.cells@,
            self.current.x as int,
            self.current.y as int,
        );
        proof {
            lemma_in_frame_small(self.current.kind, self.current.cells@);
        }
        let mut gy: i32 = self.current.y;
        loop
            invariant
                self.wf(),
                crate::piece::offsets_small(self.current.cells@),
                pos_ok(gy as int),
                drop_y(self.board.rows(), self.current.cells@, self.current.x as int, gy as int)
                    == target,
            ensures
                gy == target,
            decreases BOARD_H - gy,
        {
            if gy >= BOARD_H as i32 || gy > i32::MAX - 4 {
                assert(drop_y(self.board.rows(), self.current.cells@, self.current.x as int, gy as int)
                    == gy);
                break;
            }
            let below = place(&self.current.cells, self.current.x, gy + 1);
            if !self.board.fits(below.as_slice()) {
                assert(drop_y(self.board.rows(), self.current.cells@, self.current.x as int, gy as int)
                    == gy);
                break;
            }
            gy = gy + 1;
        }
        place(&self.current.cells, self.current.x, gy)
    }
}

} // verus!

verus! {

/// Clearing four rows at level three adds exactly 2400 to the score, once per
/// lock, and four to the line count, wherever neither counter reaches its cap.
pub proof fn lemma_four_rows_at_level_three(
    old: Game,
    new: Game,
    cells: Seq<(i32, i32)>,
    next: PieceKind,
)
    requires
        locks_into(old, new, cells, next),
        old.level == 3,
        full_count(locked_rows(old.board.rows(), cells, color_of(old.current.kind))) == 4,
        old.score + 2400 <= u64::MAX,
        old.lines + 4 <= u32::MAX,
    ensures
        new.score == old.score + 2400,
        new.lines == old.lines + 4,
{
    assert(award(4, 3) == 2400);
}

} // verus!
