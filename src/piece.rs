use vstd::prelude::*;

verus! {

/// Width of the playfield, in cells.
pub const BOARD_W: usize = 10;

/// Height of the playfield, in cells.
pub const BOARD_H: usize = 20;

/// Column of a freshly spawned piece's local origin (centred for a 4-wide frame).
pub const SPAWN_X: i32 = 3;

/// Row of a freshly spawned piece's local origin: one row above the board.
pub const SPAWN_Y: i32 = -1;

/// Display colour of a piece kind; also the tag written into locked cells.
#[derive(Clone, Copy, PartialEq, Eq, Debug, Structural)]
pub enum Color {
    Cyan,
    Yellow,
    Magenta,
    Green,
    Red,
    Blue,
    DarkYellow,
}

/// The seven tetromino kinds.
#[derive(Clone, Copy, PartialEq, Eq, Debug, Structural)]
pub enum PieceKind {
    I,
    O,
    T,
    S,
    Z,
    J,
    L,
}

/// Number of piece kinds.
pub const NUM_KINDS: usize = 7;

/// The colour of each kind.
pub open spec fn color_of(kind: PieceKind) -> Color {
    match kind {
        PieceKind::I => Color::Cyan,
        PieceKind::O => Color::Yellow,
        PieceKind::T => Color::Magenta,
        PieceKind::S => Color::Green,
        PieceKind::Z => Color::Red,
        PieceKind::J => Color::Blue,
        PieceKind::L => Color::DarkYellow,
    }
}

/// The base (unrotated) offsets of each kind, as (column, row) pairs.
pub open spec fn shape(kind: PieceKind) -> Seq<(i32, i32)> {
    match kind {
        PieceKind::I => seq![(0i32, 1i32), (1, 1), (2, 1), (3, 1)],
        PieceKind::O => seq![(1i32, 0i32), (2, 0), (1, 1), (2, 1)],
        PieceKind::T => seq![(0i32, 1i32), (1, 1), (2, 1), (1, 0)],
        PieceKind::S => seq![(0i32, 1i32), (1, 1), (1, 0), (2, 0)],
        PieceKind::Z => seq![(0i32, 0i32), (1, 0), (1, 1), (2, 1)],
        PieceKind::J => seq![(0i32, 0i32), (0, 1), (1, 1), (2, 1)],
        PieceKind::L => seq![(2i32, 0i32), (0, 1), (1, 1), (2, 1)],
    }
}

/// Side length of the local frame in which a kind rotates.
pub open spec fn frame(kind: PieceKind) -> int {
    if kind == PieceKind::I {
        4
    } else {
        3
    }
}

/// One offset turned a quarter clockwise about the corner of a frame of side `size`.
pub open spec fn rotate_offset(size: int, c: (i32, i32)) -> (i32, i32) {
    ((size - 1 - c.1) as i32, c.0)
}

/// The offsets after one clockwise rotation: unchanged for the square piece.
pub open spec fn rotate_spec(kind: PieceKind, offs: Seq<(i32, i32)>) -> Seq<(i32, i32)> {
    if kind == PieceKind::O {
        offs
    } else {
        offs.map_values(|c: (i32, i32)| rotate_offset(frame(kind), c))
    }
}

/// `n` successive clockwise rotations.
pub open spec fn rotate_n(kind: PieceKind, offs: Seq<(i32, i32)>, n: nat) -> Seq<(i32, i32)>
    decreases n,
{
    if n == 0 {
        offs
    } else {
        rotate_spec(kind, rotate_n(kind, offs, (n - 1) as nat))
    }
}

/// Offsets that stay inside the kind's rotation frame.
pub open spec fn offsets_in_frame(kind: PieceKind, offs: Seq<(i32, i32)>) -> bool {
    &&& offs.len() == 4
    &&& forall|i: int|
        0 <= i < offs.len() ==> 0 <= #[trigger] offs[i].0 < frame(kind) && 0 <= offs[i].1 < frame(
            kind,
        )
}

/// A position whose piece cells (offsets below 4) are all representable.
pub open spec fn pos_ok(p: int) -> bool {
    i32::MIN <= p <= i32::MAX - 3
}

/// The absolute cells of offsets placed with their origin at (x, y).
pub open spec fn cells_at(offs: Seq<(i32, i32)>, x: int, y: int) -> Seq<(i32, i32)> {
    offs.map_values(|c: (i32, i32)| ((x + c.0) as i32, (y + c.1) as i32))
}

impl PieceKind {
    /// The display colour of this kind.
    pub fn color(self) -> (r: Color)
        ensures
            r == color_of(self),
    {
        match self {
            PieceKind::I => Color::Cyan,
            PieceKind::O => Color::Yellow,
            PieceKind::T => Color::Magenta,
            PieceKind::S => Color::Green,
            PieceKind::Z => Color::Red,
            PieceKind::J => Color::Blue,
            PieceKind::L => Color::DarkYellow,
        }
    }

    /// The base offsets of this kind.
    pub fn cells(self) -> (r: Vec<(i32, i32)>)
        ensures
            r@ == shape(self),
    {
        let r = match self {
            PieceKind::I => vec![(0, 1), (1, 1), (2, 1), (3, 1)],
            PieceKind::O => vec![(1, 0), (2, 0), (1, 1), (2, 1)],
            PieceKind::T => vec![(0, 1), (1, 1), (2, 1), (1, 0)],
            PieceKind::S => vec![(0, 1), (1, 1), (1, 0), (2, 0)],
            PieceKind::Z => vec![(0, 0), (1, 0), (1, 1), (2, 1)],
            PieceKind::J => vec![(0, 0), (0, 1), (1, 1), (2, 1)],
            PieceKind::L => vec![(2, 0), (0, 1), (1, 1), (2, 1)],
        };
        assert(r@ =~= shape(self));
        r
    }

    /// The kind at position `i` of the order I, O, T, S, Z, J, L.
    pub fn from_index(i: usize) -> (r: PieceKind)
        requires
            i < NUM_KINDS,
        ensures
            i == 0 ==> r == PieceKind::I,
            i == 1 ==> r == PieceKind::O,
            i == 2 ==> r == PieceKind::T,
            i == 3 ==> r == PieceKind::S,
            i == 4 ==> r == PieceKind::Z,
            i == 5 ==> r == PieceKind::J,
            i == 6 ==> r == PieceKind::L,
    {
        if i == 0 {
            PieceKind::I
        } else if i == 1 {
            PieceKind::O
        } else if i == 2 {
            PieceKind::T
        } else if i == 3 {
            PieceKind::S
        } else if i == 4 {
            PieceKind::Z
        } else if i == 5 {
            PieceKind::J
        } else {
            PieceKind::L
        }
    }
}

/// Every kind's base shape lies inside its rotation frame.
pub proof fn lemma_shape_in_frame(kind: PieceKind)
    ensures
        offsets_in_frame(kind, shape(kind)),
{
}

/// Offsets within a 4-by-4 frame, which holds every kind's frame.
pub open spec fn offsets_small(offs: Seq<(i32, i32)>) -> bool {
    forall|i: int| 0 <= i < offs.len() ==> 0 <= #[trigger] offs[i].0 < 4 && 0 <= offs[i].1 < 4
}

/// The absolute cells of `offs` with their origin at (x, y).
pub fn place(offs: &Vec<(i32, i32)>, x: i32, y: i32) -> (r: Vec<(i32, i32)>)
    requires
        offsets_small(offs@),
        pos_ok(x as int),
        pos_ok(y as int),
    ensures
        r@ == cells_at(offs@, x as int, y as int),
{
    let mut r: Vec<(i32, i32)> = Vec::new();
    let mut i: usize = 0;
    while i < offs.len()
        invariant
            offsets_small(offs@),
            pos_ok(x as int),
            pos_ok(y as int),
            i <= offs@.len(),
            r@ == cells_at(offs@.take(i as int), x as int, y as int),
        decreases offs@.len() - i,
    {
        let (cx, cy) = offs[i];
        r.push((x + cx, y + cy));
        assert(offs@.take(i as int + 1) =~= offs@.take(i as int).push((cx, cy)));
        assert(r@ =~= cells_at(offs@.take(i as int + 1), x as int, y as int));
        i += 1;
    }
    assert(offs@.take(i as int) =~= offs@);
    r
}

/// Offsets inside a kind's frame are inside the 4-by-4 frame.
pub proof fn lemma_in_frame_small(kind: PieceKind, offs: Seq<(i32, i32)>)
    requires
        offsets_in_frame(kind, offs),
    ensures
        offsets_small(offs),
{
    assert forall|i: int| 0 <= i < offs.len() implies 0 <= #[trigger] offs[i].0 < 4 && 0 <= offs[i].1
        < 4 by {
        assert(0 <= offs[i].0 < frame(kind));
    }
}

/// An element-by-element copy of a list of offsets.
pub fn copy_offsets(v: &Vec<(i32, i32)>) -> (r: Vec<(i32, i32)>)
    ensures
        r@ == v@,
{
    let mut r: Vec<(i32, i32)> = Vec::new();
    let mut i: usize = 0;
    while i < v.len()
        invariant
            i <= v@.len(),
            r@ == v@.take(i as int),
        decreases v@.len() - i,
    {
        r.push(v[i]);
        assert(v@.take(i as int + 1) =~= v@.take(i as int).push(v@[i as int]));
        i += 1;
    }
    assert(v@.take(i as int) =~= v@);
    r
}

/// A piece on the board: its kind, its current offsets and the position of its origin.
#[derive(Clone, Debug)]
pub struct Piece {
    pub kind: PieceKind,
    pub cells: Vec<(i32, i32)>,
    pub x: i32,
    pub y: i32,
}

impl Piece {
    /// Offsets inside the frame and a position at which every cell is representable.
    pub open spec fn wf(&self) -> bool {
        &&& offsets_in_frame(self.kind, self.cells@)
        &&& pos_ok(self.x as int)
        &&& pos_ok(self.y as int)
    }

    /// The cells this piece occupies.
    pub open spec fn abs_spec(&self) -> Seq<(i32, i32)> {
        cells_at(self.cells@, self.x as int, self.y as int)
    }

    /// A piece of `kind` in its base orientation at the spawn position.
    pub fn new(kind: PieceKind) -> (r: Piece)
        ensures
            r.kind == kind,
            r.cells@ == shape(kind),
            r.x == SPAWN_X,
            r.y == SPAWN_Y,
            r.wf(),
    {
        let cells = kind.cells();
        proof {
            lemma_shape_in_frame(kind);
        }
        Piece { kind, cells, x: SPAWN_X, y: SPAWN_Y }
    }

    /// The absolute cells: offsets translated by the position.
    pub fn absolute_cells(&self) -> (r: Vec<(i32, i32)>)
        requires
            self.wf(),
        ensures
            r@ == self.abs_spec(),
    {
        proof {
            lemma_in_frame_small(self.kind, self.cells@);
        }
        place(&self.cells, self.x, self.y)
    }

    /// The offsets after one clockwise rotation; the piece itself is unchanged.
    pub fn rotated_cw(&self) -> (r: Vec<(i32, i32)>)
        requires
            self.wf(),
        ensures
            r@ == rotate_spec(self.kind, self.cells@),
            offsets_in_frame(self.kind, r@),
    {
        if self.kind == PieceKind::O {
            return copy_offsets(&self.cells);
        }
        let size: i32 = if self.kind == PieceKind::I {
            4
        } else {
            3
        };
        let mut r: Vec<(i32, i32)> = Vec::new();
        let mut i: usize = 0;
        while i < self.cells.len()
            invariant
                self.wf(),
                self.kind != PieceKind::O,
                size == frame(self.kind),
                i <= self.cells@.len(),
                r@ == self.cells@.take(i as int).map_values(
                    |c: (i32, i32)| rotate_offset(frame(self.kind), c),
                ),
            decreases self.cells@.len() - i,
        {
            let (cx, cy) = self.cells[i];
            r.push((size - 1 - cy, cx));
            assert(self.cells@.take(i as int + 1) =~= self.cells@.take(i as int).push((cx, cy)));
            assert(r@ =~= self.cells@.take(i as int + 1).map_values(
                |c: (i32, i32)| rotate_offset(frame(self.kind), c),
            ));
            i += 1;
        }
        assert(self.cells@.take(i as int) =~= self.cells@);
        r
    }
}

/// The square piece does not turn: any number of rotations leaves its offsets as they were.
pub proof fn lemma_square_rotation_fixed(offs: Seq<(i32, i32)>, n: nat)
    ensures
        rotate_n(PieceKind::O, offs, n) == offs,
    decreases n,
{
    if n > 0 {
        lemma_square_rotation_fixed(offs, (n - 1) as nat);
    }
}

} // verus!
