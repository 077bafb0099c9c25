use crate::block::{Block, BlockCoords};
use crate::coord::Coord;
use vstd::prelude::*;

verus! {

/// One cell of the grid.
#[derive(Debug, Clone, Copy, PartialEq, Eq, Structural)]
pub enum Cell {
    Empty,
    Filled,
}

/// The playing field, the active piece and its anchor, the lookahead
/// piece, and the bookkeeping counters.
#[derive(Debug, Clone)]
pub struct Board {
    pub rows: usize,
    pub cols: usize,
    pub cell_size_px: usize,
    pub cells: Vec<Vec<Cell>>,
    pub block: Block,
    pub next_block: Block,
    pub pos: Coord,
    pub score: u32,
    pub lines: u32,
    pub level: u32,
    pub combo: u32,
}

/// The mathematical view of a cell matrix.
pub open spec fn spec_grid(cells: Seq<Vec<Cell>>) -> Seq<Seq<Cell>> {
    cells.map_values(|row: Vec<Cell>| row@)
}

/// A row with no Empty cell left.
pub open spec fn spec_row_full(row: Seq<Cell>) -> bool {
    forall|x: int| 0 <= x < row.len() ==> row[x] == Cell::Filled
}

pub open spec fn spec_empty_row(cols: int) -> Seq<Cell> {
    Seq::new(cols as nat, |x: int| Cell::Empty)
}

pub open spec fn spec_empty_grid(rows: int, cols: int) -> Seq<Seq<Cell>> {
    Seq::new(rows as nat, |y: int| spec_empty_row(cols))
}

/// Would the piece cell `c`, with its pivot at (px, py), collide? A cell
/// collides when it leaves the side walls, falls below the floor, or lands
/// on a Filled cell. A negative y is deliberately no collision, so pieces
/// may spawn partially above the visible top row.
pub open spec fn spec_cell_collides(
    g: Seq<Seq<Cell>>,
    rows: int,
    cols: int,
    px: int,
    py: int,
    c: Coord,
) -> bool {
    let x = px + c.x;
    let y = py + c.y;
    x < 0 || x >= cols || y >= rows || (x >= 0 && y >= 0 && g[y][x] == Cell::Filled)
}

/// Does any cell of the list collide with its pivot at (px, py)?
pub open spec fn spec_collides(
    g: Seq<Seq<Cell>>,
    rows: int,
    cols: int,
    px: int,
    py: int,
    cs: Seq<Coord>,
) -> bool {
    exists|i: int| 0 <= i < cs.len() && spec_cell_collides(g, rows, cols, px, py, #[trigger] cs[i])
}

/// Is the absolute coordinate (y, x) covered by some cell of the list with
/// its pivot at (px, py)?
pub open spec fn spec_covers(px: int, py: int, cs: Seq<Coord>, y: int, x: int) -> bool {
    exists|i: int| 0 <= i < cs.len() && px + (#[trigger] cs[i]).x == x && py + cs[i].y == y
}

/// The grid with every covered coordinate stamped Filled.
pub open spec fn spec_stamp(g: Seq<Seq<Cell>>, px: int, py: int, cs: Seq<Coord>) -> Seq<Seq<Cell>> {
    Seq::new(
        g.len(),
        |y: int|
            Seq::new(
                g[y].len(),
                |x: int|
                    if spec_covers(px, py, cs, y, x) {
                        Cell::Filled
                    } else {
                        g[y][x]
                    },
            ),
    )
}

/// The rows that survive a clear pass: everything not completely full.
pub open spec fn spec_kept_rows(g: Seq<Seq<Cell>>) -> Seq<Seq<Cell>> {
    g.filter(|row: Seq<Cell>| !spec_row_full(row))
}

/// Points awarded for clearing n rows at once.
pub open spec fn spec_line_score(n: int) -> int {
    if n == 1 {
        100
    } else if n == 2 {
        250
    } else if n == 3 {
        500
    } else if n == 4 {
        1000
    } else {
        0
    }
}

/// The whole lock step at the spec level: stamp the piece, drop the full
/// rows, and refill with fresh empty rows at the top.
pub open spec fn spec_lock_clear(
    g: Seq<Seq<Cell>>,
    cols: int,
    px: int,
    py: int,
    cs: Seq<Coord>,
) -> Seq<Seq<Cell>> {
    let kept = spec_kept_rows(spec_stamp(g, px, py, cs));
    spec_empty_grid(g.len() - kept.len(), cols) + kept
}

/// How the lock step changes a board: the grid is stamped and compacted,
/// the score rises by the clear table, the line counter by the number of
/// cleared rows, and everything else is untouched.
pub open spec fn spec_lock_post(b0: Board, b1: Board) -> bool {
    let st = spec_stamp(b0.grid(), b0.pos.x as int, b0.pos.y as int, b0.block.coords@);
    let kept = spec_kept_rows(st);
    let n = b0.rows - kept.len();
    &&& 0 <= n <= 4
    &&& b1.grid() == spec_lock_clear(
        b0.grid(),
        b0.cols as int,
        b0.pos.x as int,
        b0.pos.y as int,
        b0.block.coords@,
    )
    &&& b1.score == b0.score + spec_line_score(n)
    &&& b1.lines == b0.lines + n
    &&& b1 == (Board { cells: b1.cells, score: b1.score, lines: b1.lines, ..b0 })
}

impl Board {
    /// The grid as a sequence of rows of cells.
    pub open spec fn grid(self) -> Seq<Seq<Cell>> {
        spec_grid(self.cells@)
    }

    /// Dimensions are positive, bounded, and consistent; no row is ever
    /// completely full between operations; both pieces are well formed;
    /// the anchor sits within the column range and not below the floor.
    pub open spec fn wf(self) -> bool {
        &&& 1 <= self.rows <= 0x3fff_ffff
        &&& 1 <= self.cols <= 0x3fff_ffff
        &&& self.grid().len() == self.rows
        &&& (forall|y: int| 0 <= y < self.rows ==> (#[trigger] self.grid()[y]).len() == self.cols)
        &&& (forall|y: int| 0 <= y < self.rows ==> !spec_row_full(#[trigger] self.grid()[y]))
        &&& self.block.wf()
        &&& self.next_block.wf()
        &&& 0 <= self.pos.x < self.cols
        &&& self.pos.y <= self.rows
    }

    /// Collision of a cell list at an arbitrary pivot, given as integers.
    pub open spec fn spec_check_at(self, px: int, py: int, cs: Seq<Coord>) -> bool {
        spec_collides(self.grid(), self.rows as int, self.cols as int, px, py, cs)
    }

    /// Collision of a cell list at a pivot coordinate.
    pub open spec fn spec_check(self, pos: Coord, cs: Seq<Coord>) -> bool {
        self.spec_check_at(pos.x as int, pos.y as int, cs)
    }

    /// Every cell of the active piece lies inside the grid at its current
    /// anchor, the precondition of the lock step.
    pub open spec fn placement_in_bounds(self) -> bool {
        forall|i: int|
            0 <= i < 4 ==> {
                let x = self.pos.x + (#[trigger] self.block.coords@[i]).x;
                let y = self.pos.y + self.block.coords@[i].y;
                0 <= x < self.cols && 0 <= y < self.rows
            }
    }

    /// True when every cell of the active piece lies inside the grid at
    /// its current anchor.
    pub fn placement_ok(&self) -> (ok: bool)
        requires
            self.wf(),
        ensures
            ok == self.placement_in_bounds(),
    {
        let mut k: usize = 0;
        while k < 4
            invariant
                k <= 4,
                self.wf(),
                forall|i: int|
                    0 <= i < k ==> {
                        let x = self.pos.x + (#[trigger] self.block.coords@[i]).x;
                        let y = self.pos.y + self.block.coords@[i].y;
                        0 <= x < self.cols && 0 <= y < self.rows
                    },
            decreases 4 - k,
        {
            let c = self.block.coords[k];
            let ax: i64 = self.pos.x as i64 + c.x as i64;
            let ay: i64 = self.pos.y as i64 + c.y as i64;
            if !(ax >= 0 && ax < self.cols as i64 && ay >= 0 && ay < self.rows as i64) {
                return false;
            }
            k = k + 1;
        }
        true
    }

    /// A fresh board: an all-Empty grid of the given size, the two given
    /// pieces, the anchor at the horizontal center of the top row, and all
    /// counters at zero.
    pub fn new(rows: usize, cols: usize, cell_size_px: usize, block: Block, next_block: Block) -> (b:
        Board)
        requires
            1 <= rows <= 0x3fff_ffff,
            1 <= cols <= 0x3fff_ffff,
            block.wf(),
            next_block.wf(),
        ensures
            b.wf(),
            b.rows == rows,
            b.cols == cols,
            b.cell_size_px == cell_size_px,
            b.grid() == spec_empty_grid(rows as int, cols as int),
            b.block == block,
            b.next_block == next_block,
            b.pos == (Coord { x: (cols / 2) as i32, y: 0 }),
            b.score == 0,
            b.lines == 0,
            b.level == 0,
            b.combo == 0,
    {
        let mut cells: Vec<Vec<Cell>> = Vec::new();
        let mut y: usize = 0;
        while y < rows
            invariant
                y <= rows,
                cols >= 1,
                cells@.len() == y,
                forall|j: int| 0 <= j < y ==> (#[trigger] cells@[j])@ == spec_empty_row(cols as int),
            decreases rows - y,
        {
            let mut row: Vec<Cell> = Vec::new();
            let mut x: usize = 0;
            while x < cols
                invariant
                    x <= cols,
                    row@.len() == x,
                    forall|k: int| 0 <= k < x ==> row@[k] == Cell::Empty,
                decreases cols - x,
            {
                row.push(Cell::Empty);
                x = x + 1;
            }
            proof {
                assert(row@ =~= spec_empty_row(cols as int));
            }
            cells.push(row);
            y = y + 1;
        }
        let b = Board {
            rows,
            cols,
            cell_size_px,
            cells,
            block,
            next_block,
            pos: Coord { x: (cols / 2) as i32, y: 0 },
            score: 0,
            lines: 0,
            level: 0,
            combo: 0,
        };
        proof {
            assert(b.grid() =~~= spec_empty_grid(rows as int, cols as int));
            assert forall|y2: int| 0 <= y2 < b.rows implies !spec_row_full(
                #[trigger] b.grid()[y2],
            ) by {
                assert(b.grid()[y2][0] == Cell::Empty);
            }
        }
        b
    }

    /// True when placing the cell list with its pivot at `new_pos` would
    /// collide with a wall, the floor, or a Filled cell.
    pub fn check_collision(&self, new_pos: Coord, new_coords: BlockCoords) -> (r: bool)
        requires
            self.wf(),
        ensures
            r == self.spec_check(new_pos, new_coords@),
    {
        let mut k: usize = 0;
        while k < 4
            invariant
                k <= 4,
                self.wf(),
                forall|i: int|
                    0 <= i < k ==> !spec_cell_collides(
                        self.grid(),
                        self.rows as int,
                        self.cols as int,
                        new_pos.x as int,
                        new_pos.y as int,
                        #[trigger] new_coords@[i],
                    ),
            decreases 4 - k,
        {
            let c = new_coords[k];
            let ax: i64 = new_pos.x as i64 + c.x as i64;
            let ay: i64 = new_pos.y as i64 + c.y as i64;
            if ax < 0 || ax >= self.cols as i64 || ay >= self.rows as i64 {
                return true;
            }
            if ay >= 0 {
                proof {
                    assert(self.cells@.len() == self.grid().len());
                    assert((#[trigger] self.grid()[ay as int]).len() == self.cols);
                    assert(self.grid()[ay as int] == self.cells@[ay as int]@);
                }
                let cell = self.cells[ay as usize][ax as usize];
                if cell == Cell::Filled {
                    return true;
                }
            }
            k = k + 1;
        }
        false
    }
}

/// True when the row has no Empty cell left.
fn row_is_full(row: &Vec<Cell>) -> (full: bool)
    ensures
        full == spec_row_full(row@),
{
    let mut x: usize = 0;
    while x < row.len()
        invariant
            x <= row@.len(),
            forall|k: int| 0 <= k < x ==> row@[k] == Cell::Filled,
        decreases row@.len() - x,
    {
        let cell = row[x];
        if cell == Cell::Empty {
            assert(row@[x as int] != Cell::Filled);
            return false;
        }
        assert(row@[x as int] == Cell::Filled);
        x = x + 1;
    }
    true
}

/// A row of `cols` Empty cells.
fn make_empty_row(cols: usize) -> (row: Vec<Cell>)
    ensures
        row@ == spec_empty_row(cols as int),
{
    let mut row: Vec<Cell> = Vec::new();
    let mut x: usize = 0;
    while x < cols
        invariant
            x <= cols,
            row@.len() == x,
            forall|k: int| 0 <= k < x ==> row@[k] == Cell::Empty,
        decreases cols - x,
    {
        row.push(Cell::Empty);
        x = x + 1;
    }
    proof {
        assert(row@ =~= spec_empty_row(cols as int));
    }
    row
}

/// Filtering a pushed row keeps it exactly when it is not full.
proof fn lemma_kept_rows_push(s: Seq<Seq<Cell>>, r: Seq<Cell>)
    ensures
        !spec_row_full(r) ==> spec_kept_rows(s.push(r)) == spec_kept_rows(s).push(r),
        spec_row_full(r) ==> spec_kept_rows(s.push(r)) == spec_kept_rows(s),
{
    reveal_with_fuel(Seq::filter, 2);
    assert(s.push(r).drop_last() =~= s);
    assert(s.push(r).last() == r);
}

impl Board {
    /// Locks the active piece into the grid at its current anchor, removes
    /// every completed row, re-inserts as many fresh Empty rows at the top,
    /// and adds the clear score (100/250/500/1000 for 1/2/3/4 rows) and the
    /// cleared-line count. The caller must have validated the placement:
    /// every cell of the piece lies inside the grid.
    #[verifier::loop_isolation(false)]
    pub fn update(&mut self)
        requires
            old(self).wf(),
            old(self).placement_in_bounds(),
            old(self).score + 1000 <= u32::MAX,
            old(self).lines + 4 <= u32::MAX,
        ensures
            final(self).wf(),
            spec_lock_post(*old(self), *final(self)),
    {
        let ghost g0 = old(self).grid();
        let ghost px = self.pos.x as int;
        let ghost py = self.pos.y as int;
        let ghost cs = self.block.coords@;

        // Stamp the four piece cells as Filled.
        let mut k: usize = 0;
        while k < 4
            invariant
                k <= 4,
                *self == (Board { cells: self.cells, ..*old(self) }),
                self.grid().len() == self.rows,
                forall|y: int| 0 <= y < self.rows ==> (#[trigger] self.grid()[y]).len() == self.cols,
                forall|y: int, x: int|
                    0 <= y < self.rows && 0 <= x < self.cols ==> #[trigger] self.grid()[y][x] == (
                    if spec_covers(px, py, cs.take(k as int), y, x) {
                        Cell::Filled
                    } else {
                        g0[y][x]
                    }),
            decreases 4 - k,
        {
            let c = self.block.coords[k];
            assert(0 <= self.pos.x + c.x < self.cols && 0 <= self.pos.y + c.y < self.rows);
            let xi = (self.pos.x + c.x) as usize;
            let yi = (self.pos.y + c.y) as usize;
            let ghost gprev = self.grid();
            let ghost pcells = self.cells@;
            proof {
                assert(self.cells@.len() == self.grid().len());
                assert((#[trigger] self.grid()[yi as int]).len() == self.cols);
                assert(self.grid()[yi as int] == self.cells@[yi as int]@);
            }
            self.cells[yi][xi] = Cell::Filled;
            proof {
                assert(self.cells@.len() == pcells.len());
                assert(self.cells@[yi as int]@ =~= gprev[yi as int].update(
                    xi as int,
                    Cell::Filled,
                ));
                assert forall|y: int| 0 <= y < self.rows implies (#[trigger] self.grid()[y])
                    == self.cells@[y]@ && self.grid()[y].len() == self.cols by {
                    if y != yi as int {
                        assert(self.cells@[y] == pcells[y]);
                        assert(pcells[y]@ == gprev[y]);
                    }
                }
                let csk = cs.take(k as int);
                let csk1 = cs.take(k as int + 1);
                assert(csk1[k as int] == cs[k as int]);
                assert forall|y: int, x: int|
                    0 <= y < self.rows && 0 <= x < self.cols implies #[trigger] self.grid()[y][x]
                    == (if spec_covers(px, py, csk1, y, x) {
                    Cell::Filled
                } else {
                    g0[y][x]
                }) by {
                    if y == yi as int && x == xi as int {
                        assert(px + csk1[k as int].x == x && py + csk1[k as int].y == y);
                        assert(spec_covers(px, py, csk1, y, x));
                        assert(self.grid()[y][x] == Cell::Filled);
                    } else {
                        if y == yi as int {
                            assert(self.grid()[y][x] == gprev[y][x]);
                        } else {
                            assert(self.grid()[y] == gprev[y]);
                        }
                        if spec_covers(px, py, csk1, y, x) {
                            let i = choose|i: int|
                                0 <= i < csk1.len() && px + (#[trigger] csk1[i]).x == x && py
                                    + csk1[i].y == y;
                            assert(i < k ==> csk[i] == csk1[i]);
                            assert(i == k ==> y == yi as int && x == xi as int);
                            assert(spec_covers(px, py, csk, y, x));
                        }
                        if spec_covers(px, py, csk, y, x) {
                            let i = choose|i: int|
                                0 <= i < csk.len() && px + (#[trigger] csk[i]).x == x && py
                                    + csk[i].y == y;
                            assert(csk1[i] == csk[i]);
                            assert(spec_covers(px, py, csk1, y, x));
                        }
                    }
                }
            }
            k = k + 1;
        }
        let ghost gst = spec_stamp(g0, px, py, cs);
        proof {
            assert(cs.take(4) =~= cs);
            assert(self.grid() =~~= gst);
        }

        // Pop every completed row, keeping the order of the others.
        let rows = self.rows;
        let mut kept: Vec<Vec<Cell>> = Vec::new();
        let ghost mut full_set = Set::<int>::empty();
        let mut y: usize = 0;
        while y < rows
            invariant
                y <= rows,
                *self == (Board { cells: self.cells, ..*old(self) }),
                self.cells@.len() == rows - y,
                forall|j: int|
                    0 <= j < rows - y ==> (#[trigger] self.cells@[j])@ == gst[y + j],
                spec_grid(kept@) == spec_kept_rows(gst.take(y as int)),
                kept@.len() + full_set.len() == y,
                full_set.finite(),
                forall|r: int|
                    #[trigger] full_set.contains(r) ==> 0 <= r < y && exists|i: int|
                        0 <= i < 4 && py + cs[i].y == r,
                forall|j: int|
                    0 <= j < kept@.len() ==> (#[trigger] kept@[j])@.len() == self.cols
                        && !spec_row_full(kept@[j]@),
            decreases rows - y,
        {
            proof {
                assert(self.cells@[0]@ == gst[y as int]);
                assert(gst[y as int].len() == self.cols);
            }
            let row = self.cells.remove(0);
            let full = row_is_full(&row);
            proof {
                assert(gst.take(y as int + 1) =~= gst.take(y as int).push(gst[y as int]));
                lemma_kept_rows_push(gst.take(y as int), gst[y as int]);
            }
            if full {
                proof {
                    // The board never holds a full row between operations,
                    // so this row was completed by the stamp: the piece has
                    // a cell in it.
                    assert(!spec_row_full(g0[y as int]));
                    let x0 = choose|x: int| 0 <= x < g0[y as int].len() && g0[y as int][x]
                        != Cell::Filled;
                    assert(gst[y as int][x0] == Cell::Filled);
                    assert(spec_covers(px, py, cs, y as int, x0));
                    assert(exists|i: int| 0 <= i < 4 && py + cs[i].y == y as int);
                    assert(!full_set.contains(y as int));
                    full_set = full_set.insert(y as int);
                }
            } else {
                kept.push(row);
                proof {
                    assert(spec_grid(kept@) =~= spec_kept_rows(gst.take(y as int)).push(
                        gst[y as int],
                    ));
                }
            }
            y = y + 1;
        }
        proof {
            assert(gst.take(rows as int) =~= gst);
            // At most four rows were completed: every full row holds a
            // cell of the piece, and the piece spans at most four rows.
            let ys = set![py + cs[0].y, py + cs[1].y, py + cs[2].y, py + cs[3].y];
            assert forall|r: int| full_set.contains(r) implies ys.contains(r) by {
                let i = choose|i: int| 0 <= i < 4 && py + cs[i].y == r;
                assert(i == 0 || i == 1 || i == 2 || i == 3);
            }
            vstd::set_lib::lemma_len_subset(full_set, ys);
            assert(ys.len() <= 4);
        }

        let kept_len = kept.len();
        let n = rows - kept_len;
        assert(n == full_set.len());
        assert(n <= 4);
        let add: u32 = if n == 0 {
            0
        } else if n == 1 {
            100
        } else if n == 2 {
            250
        } else if n == 3 {
            500
        } else {
            1000
        };
        self.score = self.score + add;
        self.lines = self.lines + n as u32;

        // Refill with fresh Empty rows at the top.
        let mut newg: Vec<Vec<Cell>> = Vec::new();
        let mut k2: usize = 0;
        while k2 < n
            invariant
                k2 <= n,
                newg@.len() == k2,
                forall|j: int|
                    0 <= j < k2 ==> (#[trigger] newg@[j])@ == spec_empty_row(self.cols as int),
            decreases n - k2,
        {
            newg.push(make_empty_row(self.cols));
            k2 = k2 + 1;
        }
        newg.append(&mut kept);
        self.cells = newg;

        proof {
            let colsi = self.cols as int;
            assert(self.grid() =~~= spec_empty_grid(n as int, colsi) + spec_kept_rows(gst));
            assert(self.grid() == spec_lock_clear(g0, colsi, px, py, cs));
            assert forall|y2: int| 0 <= y2 < self.rows implies (#[trigger] self.grid()[y2]).len()
                == self.cols && !spec_row_full(self.grid()[y2]) by {
                if y2 < n {
                    assert(self.grid()[y2] == spec_empty_row(colsi));
                    assert(self.grid()[y2][0] == Cell::Empty);
                } else {
                    assert(self.grid()[y2] == spec_kept_rows(gst)[y2 - n]);
                }
            }
            assert(self.wf());
        }
    }
}

/// The grid right after stamping the active piece, before compaction.
pub open spec fn spec_stamped_grid(b: Board) -> Seq<Seq<Cell>> {
    spec_stamp(b.grid(), b.pos.x as int, b.pos.y as int, b.block.coords@)
}

/// Filtering keeps a sequence whole when no row of it is full.
proof fn lemma_kept_rows_all_pass(s: Seq<Seq<Cell>>)
    requires
        forall|j: int| 0 <= j < s.len() ==> !spec_row_full(#[trigger] s[j]),
    ensures
        spec_kept_rows(s) == s,
    decreases s.len(),
{
    if s.len() == 0 {
        reveal_with_fuel(Seq::filter, 1);
        assert(spec_kept_rows(s) =~= s);
    } else {
        assert forall|j: int| 0 <= j < s.drop_last().len() implies !spec_row_full(
            #[trigger] s.drop_last()[j],
        ) by {
            assert(s.drop_last()[j] == s[j]);
        }
        lemma_kept_rows_all_pass(s.drop_last());
        lemma_kept_rows_push(s.drop_last(), s.last());
        assert(s.drop_last().push(s.last()) =~= s);
        assert(!spec_row_full(s.last()));
        assert(spec_kept_rows(s) =~= s);
    }
}

/// The clear filter distributes over concatenation.
proof fn lemma_kept_rows_add(a: Seq<Seq<Cell>>, b: Seq<Seq<Cell>>)
    ensures
        spec_kept_rows(a + b) == spec_kept_rows(a) + spec_kept_rows(b),
    decreases b.len(),
{
    if b.len() == 0 {
        reveal_with_fuel(Seq::filter, 1);
        assert(a + b =~= a);
        assert(spec_kept_rows(b) =~= Seq::<Seq<Cell>>::empty());
        assert(spec_kept_rows(a) + spec_kept_rows(b) =~= spec_kept_rows(a));
    } else {
        lemma_kept_rows_add(a, b.drop_last());
        lemma_kept_rows_push(a + b.drop_last(), b.last());
        lemma_kept_rows_push(b.drop_last(), b.last());
        assert((a + b.drop_last()).push(b.last()) =~= a + b);
        assert(b.drop_last().push(b.last()) =~= b);
        if !spec_row_full(b.last()) {
            assert(spec_kept_rows(a + b) == spec_kept_rows(a + b.drop_last()).push(b.last()));
            assert(spec_kept_rows(a) + spec_kept_rows(b) =~= (spec_kept_rows(a) + spec_kept_rows(
                b.drop_last(),
            )).push(b.last()));
        }
    }
}

/// Locking a piece that completes exactly one row, at index k of the
/// stamped grid: the row count is unchanged, one fresh Empty row appears
/// at index 0, the surviving rows keep their relative order below it, and
/// the score rises by exactly 100 and the line counter by one.
pub proof fn lemma_single_row_clear(b0: Board, b1: Board, k: int)
    requires
        b0.wf(),
        spec_lock_post(b0, b1),
        0 <= k < b0.rows,
        spec_row_full(spec_stamped_grid(b0)[k]),
        forall|y: int|
            0 <= y < b0.rows && y != k ==> !spec_row_full(#[trigger] spec_stamped_grid(b0)[y]),
    ensures
        b1.grid().len() == b0.rows,
        b1.grid()[0] == spec_empty_row(b0.cols as int),
        b1.grid() == seq![spec_empty_row(b0.cols as int)] + spec_stamped_grid(b0).take(k)
            + spec_stamped_grid(b0).skip(k + 1),
        b1.score == b0.score + 100,
        b1.lines == b0.lines + 1,
{
    let st = spec_stamped_grid(b0);
    assert(st.len() == b0.rows);
    let pre = st.take(k);
    let mid = seq![st[k]];
    let post = st.skip(k + 1);
    assert(st =~= (pre + mid) + post);
    lemma_kept_rows_add(pre + mid, post);
    lemma_kept_rows_add(pre, mid);
    assert forall|j: int| 0 <= j < pre.len() implies !spec_row_full(#[trigger] pre[j]) by {
        assert(pre[j] == st[j]);
    }
    lemma_kept_rows_all_pass(pre);
    assert forall|j: int| 0 <= j < post.len() implies !spec_row_full(#[trigger] post[j]) by {
        assert(post[j] == st[k + 1 + j]);
    }
    lemma_kept_rows_all_pass(post);
    lemma_kept_rows_push(Seq::empty(), st[k]);
    reveal_with_fuel(Seq::filter, 1);
    assert(Seq::<Seq<Cell>>::empty().push(st[k]) =~= mid);
    assert(spec_kept_rows(Seq::<Seq<Cell>>::empty()) =~= Seq::<Seq<Cell>>::empty());
    let kept = spec_kept_rows(st);
    assert(kept =~= pre + post);
    assert(kept.len() == b0.rows - 1);
    assert(spec_empty_grid(1, b0.cols as int) =~= seq![spec_empty_row(b0.cols as int)]);
    assert(b1.grid() =~= seq![spec_empty_row(b0.cols as int)] + pre + post);
    assert(spec_line_score(1) == 100);
}

/// Four rows cleared at once score a flat 1000, not four times 100.
pub proof fn lemma_quad_clear_scores_1000(b0: Board, b1: Board)
    requires
        b0.wf(),
        spec_lock_post(b0, b1),
        spec_kept_rows(spec_stamped_grid(b0)).len() == b0.rows - 4,
    ensures
        b1.score == b0.score + 1000,
{
    assert(spec_line_score(4) == 1000);
}

/// A non-colliding placement keeps every cell of the piece inside the side
/// walls and above the floor (cells above the top row are allowed).
pub proof fn lemma_valid_placement_bounds(
    g: Seq<Seq<Cell>>,
    rows: int,
    cols: int,
    px: int,
    py: int,
    cs: Seq<Coord>,
)
    requires
        !spec_collides(g, rows, cols, px, py, cs),
    ensures
        forall|i: int|
            0 <= i < cs.len() ==> 0 <= px + (#[trigger] cs[i]).x < cols && py + cs[i].y < rows,
{
    assert forall|i: int|
        0 <= i < cs.len() implies 0 <= px + (#[trigger] cs[i]).x < cols && py + cs[i].y
        < rows by {
        assert(!spec_cell_collides(g, rows, cols, px, py, cs[i]));
    }
}

} // verus!
