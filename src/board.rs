use vstd::prelude::*;
use crate::piece::{Color, BOARD_W, BOARD_H};

verus! {

/// One cell: empty, or occupied with the colour of the piece that locked there.
pub type Cell = Option<Color>;

/// A row of the playfield, seen as a sequence of cells.
pub type RowView = Seq<Option<Color>>;

/// Every cell of the row is occupied.
pub open spec fn row_full(row: RowView) -> bool {
    forall|i: int| 0 <= i < row.len() ==> (#[trigger] row[i]) is Some
}

/// A row of the playfield's width with no occupied cell.
pub open spec fn empty_row() -> RowView {
    Seq::new(BOARD_W as nat, |i: int| None)
}

/// The rows that are not full, in the order they stood.
pub open spec fn kept_rows(rows: Seq<RowView>) -> Seq<RowView>
    decreases rows.len(),
{
    if rows.len() == 0 {
        rows
    } else if row_full(rows.last()) {
        kept_rows(rows.drop_last())
    } else {
        kept_rows(rows.drop_last()).push(rows.last())
    }
}

/// How many rows are full.
pub open spec fn full_count(rows: Seq<RowView>) -> int {
    rows.len() - kept_rows(rows).len()
}

/// The rows after clearing: the full rows removed, the rest kept in order and
/// pushed to the bottom, and as many empty rows as were removed put on top.
pub open spec fn cleared_rows(rows: Seq<RowView>) -> Seq<RowView> {
    Seq::new(full_count(rows) as nat, |i: int| empty_row()) + kept_rows(rows)
}

/// The rows after writing `color` into every in-bounds cell listed in `cells`.
pub open spec fn locked_rows(rows: Seq<RowView>, cells: Seq<(i32, i32)>, color: Color) -> Seq<
    RowView,
> {
    Seq::new(
        rows.len(),
        |y: int|
            Seq::new(
                rows[y].len(),
                |x: int|
                    if cells.contains((x as i32, y as i32)) {
                        Some(color)
                    } else {
                        rows[y][x]
                    },
            ),
    )
}

/// The cell at (x, y) may be occupied by a piece: inside the walls, above the
/// floor, and either above the visible board or empty.
pub open spec fn free_in(rows: Seq<RowView>, x: int, y: int) -> bool {
    &&& 0 <= x < BOARD_W
    &&& y < BOARD_H
    &&& (y < 0 || rows[y][x] is None)
}

/// Every listed cell is free.
pub open spec fn fits_in(rows: Seq<RowView>, cells: Seq<(i32, i32)>) -> bool {
    forall|i: int| 0 <= i < cells.len() ==> free_in(rows, #[trigger] cells[i].0 as int, cells[i].1 as int)
}

/// The playfield: `grid[y][x]` is the cell in row `y` (0 at the top) and column `x`.
pub struct Board {
    pub grid: [[Cell; BOARD_W]; BOARD_H],
}

impl Board {
    /// The rows of the grid as sequences.
    pub open spec fn rows(&self) -> Seq<RowView> {
        self.grid@.map_values(|r: [Cell; BOARD_W]| r@)
    }

    /// An empty board.
    pub fn new() -> (r: Board)
        ensures
            r.rows() == Seq::new(BOARD_H as nat, |i: int| empty_row()),
    {
        let r = Board { grid: [[None; BOARD_W]; BOARD_H] };
        assert(r.rows() =~= Seq::new(BOARD_H as nat, |i: int| empty_row())) by {
            assert forall|y: int| 0 <= y < BOARD_H implies r.rows()[y] =~= empty_row() by {}
        }
        r
    }

    /// Whether a piece cell may stand at (x, y).
    pub fn is_free(&self, x: i32, y: i32) -> (r: bool)
        ensures
            r == free_in(self.rows(), x as int, y as int),
    {
        if x < 0 || x >= BOARD_W as i32 {
            return false;
        }
        if y >= BOARD_H as i32 {
            return false;
        }
        if y < 0 {
            return true;
        }
        self.grid[y as usize][x as usize].is_none()
    }

    /// Whether every listed cell is free.
    pub fn fits(&self, cells: &[(i32, i32)]) -> (r: bool)
        ensures
            r == fits_in(self.rows(), cells@),
    {
        let mut i: usize = 0;
        while i < cells.len()
            invariant
                i <= cells@.len(),
                fits_in(self.rows(), cells@.take(i as int)),
            decreases cells@.len() - i,
        {
            let (x, y) = cells[i];
            if !self.is_free(x, y) {
                assert(!free_in(self.rows(), cells@[i as int].0 as int, cells@[i as int].1 as int));
                return false;
            }
            assert(fits_in(self.rows(), cells@.take(i as int + 1))) by {
                assert forall|j: int| 0 <= j < i + 1 implies free_in(
                    self.rows(),
                    #[trigger] cells@.take(i as int + 1)[j].0 as int,
                    cells@.take(i as int + 1)[j].1 as int,
                ) by {
                    if j < i {
                        assert(cells@.take(i as int + 1)[j] == cells@.take(i as int)[j]);
                    }
                }
            }
            i += 1;
        }
        assert(cells@.take(i as int) =~= cells@);
        true
    }

    /// Writes `color` into every listed cell that lies on the board; cells
    /// outside it (above the top in particular) are dropped.
    pub fn lock(&mut self, cells: &[(i32, i32)], color: Color)
        ensures
            final(self).rows() == locked_rows(old(self).rows(), cells@, color),
    {
        let ghost start = self.rows();
        assert(locked_rows(start, cells@.take(0), color) =~= start) by {
            assert forall|r: int| 0 <= r < BOARD_H implies #[trigger] locked_rows(
                start,
                cells@.take(0),
                color,
            )[r] =~= start[r] by {}
        }
        let mut i: usize = 0;
        while i < cells.len()
            invariant
                i <= cells@.len(),
                start == old(self).rows(),
                start.len() == BOARD_H,
                forall|y: int| 0 <= y < BOARD_H ==> (#[trigger] start[y]).len() == BOARD_W,
                self.rows() == locked_rows(start, cells@.take(i as int), color),
            decreases cells@.len() - i,
        {
            let (x, y) = cells[i];
            let ghost before = self.rows();
            if y >= 0 && y < BOARD_H as i32 && x >= 0 && x < BOARD_W as i32 {
                let mut row = self.grid[y as usize];
                row[x as usize] = Some(color);
                self.grid[y as usize] = row;
            }
            let ghost prefix = cells@.take(i as int);
            let ghost next = cells@.take(i as int + 1);
            assert(next =~= prefix.push((x, y)));
            assert forall|r: int, c: int| 0 <= r < BOARD_H && 0 <= c < BOARD_W implies
                (#[trigger] next.contains((c as i32, r as i32))) == (prefix.contains((c as i32, r as i32))
                    || (x, y) == (c as i32, r as i32)) by {
                if prefix.contains((c as i32, r as i32)) {
                    let k = choose|k: int| 0 <= k < prefix.len() && prefix[k] == (c as i32, r as i32);
                    assert(next[k] == prefix[k]);
                }
                if (x, y) == (c as i32, r as i32) {
                    assert(next[i as int] == (x, y));
                }
                if next.contains((c as i32, r as i32)) {
                    let k = choose|k: int| 0 <= k < next.len() && next[k] == (c as i32, r as i32);
                    if k < i {
                        assert(prefix[k] == next[k]);
                    }
                }
            }
            assert(self.rows() =~= locked_rows(start, next, color)) by {
                assert forall|r: int| 0 <= r < BOARD_H implies #[trigger] self.rows()[r] =~= locked_rows(
                    start,
                    next,
                    color,
                )[r] by {
                    assert forall|c: int| 0 <= c < BOARD_W implies #[trigger] self.rows()[r][c]
                        == locked_rows(start, next, color)[r][c] by {
                        assert(before[r][c] == locked_rows(start, prefix, color)[r][c]);
                    }
                }
            }
            i += 1;
        }
        assert(cells@.take(i as int) =~= cells@);
    }

    /// Whether every cell of a row is occupied.
    fn row_is_full(row: &[Cell; BOARD_W]) -> (r: bool)
        ensures
            r == row_full(row@),
    {
        let mut x: usize = 0;
        while x < BOARD_W
            invariant
                x <= BOARD_W,
                forall|i: int| 0 <= i < x ==> (#[trigger] row@[i]) is Some,
            decreases BOARD_W - x,
        {
            if row[x].is_none() {
                return false;
            }
            x += 1;
        }
        true
    }

    /// Removes every full row, moves the remaining rows down in their order,
    /// fills the top with empty rows, and returns how many rows were removed.
    pub fn clear_lines(&mut self) -> (r: u32)
        ensures
            final(self).rows() == cleared_rows(old(self).rows()),
            r == full_count(old(self).rows()),
    {
        let ghost start = self.rows();
        let mut cleared: u32 = 0;
        let mut kept: Vec<[Cell; BOARD_W]> = Vec::new();
        let mut y: usize = 0;
        while y < BOARD_H
            invariant
                y <= BOARD_H,
                start == old(self).rows(),
                self.rows() == start,
                kept@.map_values(|r: [Cell; BOARD_W]| r@) == kept_rows(start.take(y as int)),
                cleared == y - kept@.len(),
            decreases BOARD_H - y,
        {
            let row = self.grid[y];
            proof {
                lemma_kept_len(start.take(y as int));
                assert(start.take(y as int + 1).drop_last() =~= start.take(y as int));
            }
            if Self::row_is_full(&row) {
                cleared += 1;
            } else {
                kept.push(row);
                assert(kept@.map_values(|r: [Cell; BOARD_W]| r@) =~= kept_rows(
                    start.take(y as int + 1),
                ));
            }
            y += 1;
        }
        assert(start.take(BOARD_H as int) =~= start);
        let ghost kv = kept_rows(start);
        let empty_count: usize = BOARD_H - kept.len();
        let mut y: usize = 0;
        while y < BOARD_H
            invariant
                y <= BOARD_H,
                kept@.map_values(|r: [Cell; BOARD_W]| r@) == kv,
                kv.len() == kept@.len(),
                kv == kept_rows(start),
                empty_count == BOARD_H - kept@.len(),
                empty_count == full_count(start),
                start.len() == BOARD_H,
                forall|j: int| 0 <= j < y ==> #[trigger] self.rows()[j] == cleared_rows(start)[j],
            decreases BOARD_H - y,
        {
            let ghost prev = self.rows();
            if y < empty_count {
                self.grid[y] = [None; BOARD_W];
                assert(self.rows()[y as int] =~= empty_row());
                assert(cleared_rows(start)[y as int] == empty_row());
            } else {
                assert(kv[y - empty_count] == kept@[y - empty_count]@);
                self.grid[y] = kept[y - empty_count];
                assert(self.rows()[y as int] == kv[y - empty_count]);
                assert(cleared_rows(start)[y as int] == kv[y - empty_count]);
            }
            assert forall|j: int| 0 <= j < y implies #[trigger] self.rows()[j] == prev[j] by {}
            y += 1;
        }
        assert(self.rows() =~= cleared_rows(start));
        cleared
    }
}

/// Keeping rows never yields more rows than there were.
pub proof fn lemma_kept_len(rows: Seq<RowView>)
    ensures
        kept_rows(rows).len() <= rows.len(),
    decreases rows.len(),
{
    if rows.len() > 0 {
        lemma_kept_len(rows.drop_last());
    }
}

} // verus!

verus! {

/// Keeping the rows of a concatenation keeps those of each part.
pub proof fn lemma_kept_add(a: Seq<RowView>, b: Seq<RowView>)
    ensures
        kept_rows(a + b) == kept_rows(a) + kept_rows(b),
    decreases b.len(),
{
    if b.len() == 0 {
        assert(a + b =~= a);
        assert(kept_rows(a) + kept_rows(b) =~= kept_rows(a));
    } else {
        assert((a + b).drop_last() =~= a + b.drop_last());
        assert((a + b).last() == b.last());
        lemma_kept_add(a, b.drop_last());
        if !row_full(b.last()) {
            assert(kept_rows(a) + kept_rows(b.drop_last()).push(b.last()) =~= (kept_rows(a)
                + kept_rows(b.drop_last())).push(b.last()));
        }
    }
}

/// Rows none of which is full are all kept.
pub proof fn lemma_kept_none_full(rows: Seq<RowView>)
    requires
        forall|y: int| 0 <= y < rows.len() ==> !row_full(#[trigger] rows[y]),
    ensures
        kept_rows(rows) == rows,
    decreases rows.len(),
{
    if rows.len() > 0 {
        assert(!row_full(rows[rows.len() - 1]));
        lemma_kept_none_full(rows.drop_last());
        assert(rows.drop_last().push(rows.last()) =~= rows);
    }
}

/// A single full row is dropped.
proof fn lemma_kept_one_full(row: RowView)
    requires
        row_full(row),
    ensures
        kept_rows(seq![row]) =~= Seq::<RowView>::empty(),
{
    assert(seq![row].drop_last() =~= Seq::<RowView>::empty());
    assert(seq![row].last() == row);
    assert(kept_rows(Seq::<RowView>::empty()) == Seq::<RowView>::empty());
}

/// Rows `lo..hi` of `rows`, none of them full, are kept as they are.
proof fn lemma_kept_slice(rows: Seq<RowView>, lo: int, hi: int)
    requires
        0 <= lo <= hi <= rows.len(),
        forall|y: int| lo <= y < hi ==> !row_full(#[trigger] rows[y]),
    ensures
        kept_rows(rows.subrange(lo, hi)) == rows.subrange(lo, hi),
{
    let s = rows.subrange(lo, hi);
    assert forall|y: int| 0 <= y < s.len() implies !row_full(#[trigger] s[y]) by {
        assert(s[y] == rows[lo + y]);
    }
    lemma_kept_none_full(s);
}

/// With no full row, clearing removes nothing and leaves every row as it was.
pub proof fn lemma_clear_without_full_rows(rows: Seq<RowView>)
    requires
        forall|y: int| 0 <= y < rows.len() ==> !row_full(#[trigger] rows[y]),
    ensures
        full_count(rows) == 0,
        cleared_rows(rows) == rows,
{
    lemma_kept_none_full(rows);
    assert(cleared_rows(rows) =~= rows);
}

/// With exactly one full row `k`, clearing removes one row: an empty row comes
/// in on top, the rows above `k` move down by one, and the rows below stay.
pub proof fn lemma_clear_one_full_row(rows: Seq<RowView>, k: int)
    requires
        0 <= k < rows.len(),
        row_full(rows[k]),
        forall|y: int| 0 <= y < rows.len() && y != k ==> !row_full(#[trigger] rows[y]),
    ensures
        full_count(rows) == 1,
        cleared_rows(rows)[0] == empty_row(),
        forall|y: int| 0 <= y < k ==> #[trigger] cleared_rows(rows)[y + 1] == rows[y],
        forall|y: int| k < y < rows.len() ==> #[trigger] cleared_rows(rows)[y] == rows[y],
{
    let n = rows.len() as int;
    lemma_kept_slice(rows, 0, k);
    lemma_kept_slice(rows, k + 1, n);
    lemma_kept_one_full(rows[k]);
    assert(rows =~= rows.subrange(0, k) + seq![rows[k]] + rows.subrange(k + 1, n));
    lemma_kept_add(rows.subrange(0, k), seq![rows[k]]);
    lemma_kept_add(rows.subrange(0, k) + seq![rows[k]], rows.subrange(k + 1, n));
    let kept = rows.subrange(0, k) + rows.subrange(k + 1, n);
    assert(kept_rows(rows) =~= kept);
    assert(cleared_rows(rows) =~= seq![empty_row()] + kept);
}

/// With exactly two full rows `a < c`, clearing removes two rows: two empty rows
/// come in on top, the rows above `a` move down by two, those between `a` and
/// `c` by one, and the rows below `c` stay.
pub proof fn lemma_clear_two_full_rows(rows: Seq<RowView>, a: int, c: int)
    requires
        0 <= a < c < rows.len(),
        row_full(rows[a]),
        row_full(rows[c]),
        forall|y: int| 0 <= y < rows.len() && y != a && y != c ==> !row_full(#[trigger] rows[y]),
    ensures
        full_count(rows) == 2,
        cleared_rows(rows)[0] == empty_row(),
        cleared_rows(rows)[1] == empty_row(),
        forall|y: int| 0 <= y < a ==> #[trigger] cleared_rows(rows)[y + 2] == rows[y],
        forall|y: int| a < y < c ==> #[trigger] cleared_rows(rows)[y + 1] == rows[y],
        forall|y: int| c < y < rows.len() ==> #[trigger] cleared_rows(rows)[y] == rows[y],
{
    let n = rows.len() as int;
    let p0 = rows.subrange(0, a);
    let p1 = rows.subrange(a + 1, c);
    let p2 = rows.subrange(c + 1, n);
    lemma_kept_slice(rows, 0, a);
    lemma_kept_slice(rows, a + 1, c);
    lemma_kept_slice(rows, c + 1, n);
    lemma_kept_one_full(rows[a]);
    lemma_kept_one_full(rows[c]);
    assert(rows =~= p0 + seq![rows[a]] + p1 + seq![rows[c]] + p2);
    lemma_kept_add(p0, seq![rows[a]]);
    lemma_kept_add(p0 + seq![rows[a]], p1);
    lemma_kept_add(p0 + seq![rows[a]] + p1, seq![rows[c]]);
    lemma_kept_add(p0 + seq![rows[a]] + p1 + seq![rows[c]], p2);
    let kept = p0 + p1 + p2;
    assert(kept_rows(rows) =~= kept);
    assert(cleared_rows(rows) =~= seq![empty_row(), empty_row()] + kept);
}

/// Cells above the visible board are free in every column, whatever the board holds.
pub proof fn lemma_above_board_free(rows: Seq<RowView>, x: int, y: int)
    requires
        0 <= x < BOARD_W,
        y < 0,
    ensures
        free_in(rows, x, y),
{
}

} // verus!
