pub mod block;
pub mod board;
pub mod coord;

use crate::block::{sc, spec_rotate, spec_shape, Block, BlockStyle};
use crate::board::{
    lemma_valid_placement_bounds, spec_cell_collides, spec_collides, spec_empty_grid,
    spec_lock_post, Board, Cell,
};
use crate::coord::Coord;
use vstd::prelude::*;

verus! {

pub const KEY_UP: u32 = 38;

pub const KEY_DOWN: u32 = 40;

pub const KEY_LEFT: u32 = 37;

pub const KEY_RIGHT: u32 = 39;

pub const KEY_SPACE: u32 = 32;

/// What a fall tick did: the piece descended one row, the lock was
/// deferred because the player still has cooldown time, or the piece was
/// locked and the next one spawned.
#[derive(Debug, Clone, Copy, PartialEq, Eq, Structural)]
pub enum TickStep {
    Descended,
    Deferred,
    Locked,
}

/// The game engine: one board with its active and next piece. The host
/// keeps the real-time pacing state (fall delay and cooldown) and the
/// drawing surface; the engine decides every move.
#[derive(Debug, Clone)]
pub struct Game {
    pub board: Board,
}

/// The board after a moveLeft: the anchor shifts one column left when the
/// shifted placement does not collide, and stays put otherwise.
pub open spec fn spec_moved_left(b: Board) -> Board {
    if !b.spec_check_at(b.pos.x - 1, b.pos.y as int, b.block.coords@) {
        Board { pos: (Coord { x: (b.pos.x - 1) as i32, y: b.pos.y }), ..b }
    } else {
        b
    }
}

/// The board after a moveRight.
pub open spec fn spec_moved_right(b: Board) -> Board {
    if !b.spec_check_at(b.pos.x + 1, b.pos.y as int, b.block.coords@) {
        Board { pos: (Coord { x: (b.pos.x + 1) as i32, y: b.pos.y }), ..b }
    } else {
        b
    }
}

/// The board after a moveDown.
pub open spec fn spec_moved_down(b: Board) -> Board {
    if !b.spec_check_at(b.pos.x as int, b.pos.y + 1, b.block.coords@) {
        Board { pos: (Coord { x: b.pos.x, y: (b.pos.y + 1) as i32 }), ..b }
    } else {
        b
    }
}

/// The kick search for a blocked rotation: one row up, crossed with the
/// columns left, middle, right, in that order; the first offset where the
/// rotated cells fit.
pub open spec fn spec_kick(b: Board, rot: Seq<Coord>) -> Option<Coord> {
    let px = b.pos.x as int;
    let py = b.pos.y as int;
    if !b.spec_check_at(px - 1, py - 1, rot) {
        Some(Coord { x: -1i32, y: -1i32 })
    } else if !b.spec_check_at(px, py - 1, rot) {
        Some(Coord { x: 0, y: -1i32 })
    } else if !b.spec_check_at(px + 1, py - 1, rot) {
        Some(Coord { x: 1, y: -1i32 })
    } else {
        None
    }
}

/// How a rotate call changes the board. An O piece is left alone. The
/// rotated cells are committed at the anchor when they fit there, else at
/// the first kick offset that fits; when nothing fits, the rotation is
/// silently abandoned.
pub open spec fn spec_rotate_post(b0: Board, b1: Board) -> bool {
    if b0.block.style == BlockStyle::O {
        b1 == b0
    } else {
        let rot = spec_rotate(b0.block.coords@);
        let px = b0.pos.x as int;
        let py = b0.pos.y as int;
        if !b0.spec_check_at(px, py, rot) {
            &&& b1 == (Board { block: b1.block, ..b0 })
            &&& b1.block.style == b0.block.style
            &&& b1.block.coords@ == rot
        } else {
            match spec_kick(b0, rot) {
                Some(off) => {
                    &&& b1 == (Board { block: b1.block, pos: b1.pos, ..b0 })
                    &&& b1.block.style == b0.block.style
                    &&& b1.block.coords@ == rot
                    &&& b1.pos == (Coord { x: (px + off.x) as i32, y: (py + off.y) as i32 })
                },
                None => b1 == b0,
            }
        }
    }
}

/// How a drop call changes the board: the anchor keeps its column, sinks
/// monotonically through positions that do not collide, and stops exactly
/// where the next row down collides. This characterizes the result of
/// calling moveDown until it fails.
pub open spec fn spec_drop_post(b0: Board, b1: Board) -> bool {
    &&& b1 == (Board { pos: b1.pos, ..b0 })
    &&& b1.pos.x == b0.pos.x
    &&& b0.pos.y <= b1.pos.y
    &&& b1.spec_check_at(b1.pos.x as int, b1.pos.y + 1, b1.block.coords@)
    &&& (forall|j: int|
        b0.pos.y < j <= b1.pos.y ==> !b0.spec_check_at(b0.pos.x as int, j, b0.block.coords@))
}

/// The precondition of a fall tick: when the tick would lock the piece,
/// the piece must lie fully inside the grid and the score and line
/// counters must have room.
pub open spec fn spec_tick_allowed(b: Board, cooldown_active: bool) -> bool {
    b.spec_check_at(b.pos.x as int, b.pos.y + 1, b.block.coords@) && !cooldown_active
        ==> b.placement_in_bounds() && b.score + 1000 <= u32::MAX && b.lines + 4 <= u32::MAX
}

/// How a fall tick changes the board, by case: descend one row when the
/// row below is free; defer when blocked but the cooldown still runs;
/// else lock, clear, respawn at the top center, promote the lookahead
/// piece and take `fresh` as the new lookahead.
pub open spec fn spec_tick_post(
    b0: Board,
    b1: Board,
    cooldown_active: bool,
    fresh: Block,
    step: TickStep,
) -> bool {
    if !b0.spec_check_at(b0.pos.x as int, b0.pos.y + 1, b0.block.coords@) {
        &&& step == TickStep::Descended
        &&& b1 == (Board { pos: (Coord { x: b0.pos.x, y: (b0.pos.y + 1) as i32 }), ..b0 })
    } else if cooldown_active {
        &&& step == TickStep::Deferred
        &&& b1 == b0
    } else {
        &&& step == TickStep::Locked
        &&& spec_lock_post(
            b0,
            Board { pos: b0.pos, block: b0.block, next_block: b0.next_block, ..b1 },
        )
        &&& b1.pos == (Coord { x: (b0.cols as int / 2) as i32, y: 0 })
        &&& b1.block == b0.next_block
        &&& b1.next_block == fresh
    }
}

/// Every cell of the active piece sits inside the side walls and above
/// the floor.
pub open spec fn spec_piece_in_walls(b: Board) -> bool {
    forall|i: int|
        0 <= i < 4 ==> 0 <= b.pos.x + (#[trigger] b.block.coords@[i]).x < b.cols && b.pos.y
            + b.block.coords@[i].y < b.rows
}

/// On a fresh, empty board at least two rows tall and three columns wide,
/// the spawn placement of any drawn piece never collides. (On a narrower
/// or shorter board a spawn cell can leave the grid, so those sizes are
/// excluded.)
pub proof fn lemma_spawn_never_collides(b: Board)
    requires
        b.wf(),
        b.rows >= 2,
        b.cols >= 3,
        b.grid() == spec_empty_grid(b.rows as int, b.cols as int),
        b.block.coords@ == spec_shape(b.block.style),
    ensures
        !b.spec_check_at(b.cols as int / 2, 0, b.block.coords@),
{
    let cs = b.block.coords@;
    let px = b.cols as int / 2;
    let rows = b.rows as int;
    let cols = b.cols as int;
    assert(1 <= px && px + 1 < cols);
    assert forall|i: int| 0 <= i < cs.len() implies !spec_cell_collides(
        b.grid(),
        rows,
        cols,
        px,
        0,
        cs[i],
    ) by {
        if b.block.style == BlockStyle::I {
            assert(cs[0] == sc(0, -2) && cs[1] == sc(0, -1) && cs[2] == sc(0, 0) && cs[3] == sc(
                0,
                1,
            ));
        } else if b.block.style == BlockStyle::J {
            assert(cs[0] == sc(0, -1) && cs[1] == sc(0, 0) && cs[2] == sc(0, 1) && cs[3] == sc(
                -1,
                1,
            ));
        } else if b.block.style == BlockStyle::L {
            assert(cs[0] == sc(0, -1) && cs[1] == sc(0, 0) && cs[2] == sc(0, 1) && cs[3] == sc(
                1,
                0,
            ));
        } else if b.block.style == BlockStyle::O {
            assert(cs[0] == sc(0, -1) && cs[1] == sc(1, -1) && cs[2] == sc(1, 0) && cs[3] == sc(
                0,
                0,
            ));
        } else if b.block.style == BlockStyle::S {
            assert(cs[0] == sc(-1, 0) && cs[1] == sc(0, 0) && cs[2] == sc(0, -1) && cs[3] == sc(
                1,
                -1,
            ));
        } else if b.block.style == BlockStyle::T {
            assert(cs[0] == sc(-1, 0) && cs[1] == sc(0, 0) && cs[2] == sc(1, 0) && cs[3] == sc(
                0,
                -1,
            ));
        } else {
            assert(cs[0] == sc(-1, -1) && cs[1] == sc(0, -1) && cs[2] == sc(0, 0) && cs[3] == sc(
                1,
                0,
            ));
        }
        assert(-1 <= cs[i].x <= 1 && -2 <= cs[i].y <= 1);
        let x = px + cs[i].x;
        let y = 0 + cs[i].y;
        assert(0 <= x < cols);
        assert(y < rows);
        if y >= 0 {
            assert(b.grid()[y] == crate::board::spec_empty_row(cols));
            assert(b.grid()[y][x] == Cell::Empty);
        }
    }
}

/// An accepted horizontal or downward step never places a cell outside
/// the side walls or below the floor.
pub proof fn lemma_moves_stay_in_bounds(b: Board)
    requires
        b.wf(),
    ensures
        spec_moved_left(b).pos != b.pos ==> spec_piece_in_walls(spec_moved_left(b)),
        spec_moved_right(b).pos != b.pos ==> spec_piece_in_walls(spec_moved_right(b)),
        spec_moved_down(b).pos != b.pos ==> spec_piece_in_walls(spec_moved_down(b)),
{
    let rows = b.rows as int;
    let cols = b.cols as int;
    if spec_moved_left(b).pos != b.pos {
        lemma_valid_placement_bounds(
            b.grid(),
            rows,
            cols,
            b.pos.x - 1,
            b.pos.y as int,
            b.block.coords@,
        );
    }
    if spec_moved_right(b).pos != b.pos {
        lemma_valid_placement_bounds(
            b.grid(),
            rows,
            cols,
            b.pos.x + 1,
            b.pos.y as int,
            b.block.coords@,
        );
    }
    if spec_moved_down(b).pos != b.pos {
        lemma_valid_placement_bounds(
            b.grid(),
            rows,
            cols,
            b.pos.x as int,
            b.pos.y + 1,
            b.block.coords@,
        );
    }
}

/// The drop characterization pins a single board: it is met by exactly
/// one resting position, the one that repeated moveDown calls reach
/// before the first refusal.
pub proof fn lemma_drop_post_unique(b0: Board, b1: Board, b2: Board)
    requires
        spec_drop_post(b0, b1),
        spec_drop_post(b0, b2),
    ensures
        b1 == b2,
{
    if b1.pos.y < b2.pos.y {
        assert(!b0.spec_check_at(b0.pos.x as int, b1.pos.y + 1, b0.block.coords@));
        assert(false);
    }
    if b2.pos.y < b1.pos.y {
        assert(!b0.spec_check_at(b0.pos.x as int, b2.pos.y + 1, b0.block.coords@));
        assert(false);
    }
}

/// A hard drop that moved the piece leaves every cell inside the side
/// walls and above the floor.
pub proof fn lemma_drop_stays_in_bounds(b0: Board, b1: Board)
    requires
        b0.wf(),
        spec_drop_post(b0, b1),
        b1.pos != b0.pos,
    ensures
        spec_piece_in_walls(b1),
{
    assert(b0.pos.y < b1.pos.y);
    assert(!b0.spec_check_at(b0.pos.x as int, b1.pos.y as int, b0.block.coords@));
    lemma_valid_placement_bounds(
        b0.grid(),
        b0.rows as int,
        b0.cols as int,
        b0.pos.x as int,
        b1.pos.y as int,
        b0.block.coords@,
    );
}

/// A piece that sits at a valid placement but cannot descend one more row
/// rests on the floor or directly above a Filled cell. This is the state
/// a hard drop that moved leaves behind; a piece that was already blocked
/// at an invalid placement has nothing to rest on.
pub proof fn lemma_resting_contact(b: Board)
    requires
        b.wf(),
        !b.spec_check_at(b.pos.x as int, b.pos.y as int, b.block.coords@),
        b.spec_check_at(b.pos.x as int, b.pos.y + 1, b.block.coords@),
    ensures
        exists|i: int|
            0 <= i < 4 && (b.pos.y + (#[trigger] b.block.coords@[i]).y + 1 == b.rows || (0
                <= b.pos.y + b.block.coords@[i].y + 1 < b.rows && b.grid()[b.pos.y
                + b.block.coords@[i].y + 1][b.pos.x + b.block.coords@[i].x] == Cell::Filled)),
{
    let cs = b.block.coords@;
    let rows = b.rows as int;
    let cols = b.cols as int;
    let px = b.pos.x as int;
    let py = b.pos.y as int;
    let i = choose|i: int|
        0 <= i < cs.len() && spec_cell_collides(b.grid(), rows, cols, px, py + 1, #[trigger] cs[i]);
    assert(!spec_cell_collides(b.grid(), rows, cols, px, py, cs[i]));
    assert(py + cs[i].y + 1 == rows || (0 <= py + cs[i].y + 1 < rows && b.grid()[py + cs[i].y
        + 1][px + cs[i].x] == Cell::Filled));
}

/// A piece that keeps its pivot cell and does not collide pins its anchor
/// inside the columns and above the floor.
proof fn lemma_anchor_bounds(b: Board, px: int, py: int, cs: Seq<Coord>)
    requires
        cs.contains(Coord { x: 0, y: 0 }),
        !spec_collides(b.grid(), b.rows as int, b.cols as int, px, py, cs),
    ensures
        0 <= px < b.cols,
        py < b.rows,
{
    let i = choose|i: int| 0 <= i < cs.len() && cs[i] == Coord { x: 0, y: 0 };
    assert(!spec_cell_collides(b.grid(), b.rows as int, b.cols as int, px, py, cs[i]));
}

impl Game {
    pub open spec fn wf(self) -> bool {
        self.board.wf()
    }

    /// A fresh game on an empty board of the given size, with the given
    /// active and lookahead pieces. The host builds the drawing surface
    /// and the frame loop around it.
    pub fn make(
        rows: usize,
        cols: usize,
        cell_size_px: usize,
        block: Block,
        next_block: Block,
    ) -> (g: Game)
        requires
            1 <= rows <= 0x3fff_ffff,
            1 <= cols <= 0x3fff_ffff,
            block.wf(),
            next_block.wf(),
        ensures
            g.wf(),
            g.board.rows == rows,
            g.board.cols == cols,
            g.board.cell_size_px == cell_size_px,
            g.board.grid() == spec_empty_grid(rows as int, cols as int),
            g.board.block == block,
            g.board.next_block == next_block,
            g.board.pos == (Coord { x: (cols / 2) as i32, y: 0 }),
            g.board.score == 0,
            g.board.lines == 0,
            g.board.level == 0,
            g.board.combo == 0,
    {
        Game { board: Board::new(rows, cols, cell_size_px, block, next_block) }
    }

    /// The fall delay armed after each tick, in milliseconds: 650 minus 50
    /// per level. Deliberately unclamped: at a high enough level it goes
    /// non-positive and the host then ticks on every frame.
    pub fn get_tick_time(&self) -> (t: i64)
        ensures
            t == 650 - (self.board.level as int) * 50,
    {
        650i64 - (self.board.level as i64) * 50
    }

    /// Shifts the active piece one column left when nothing blocks it;
    /// reports whether it moved.
    pub fn move_left(&mut self) -> (moved: bool)
        requires
            old(self).wf(),
        ensures
            final(self).wf(),
            final(self).board == spec_moved_left(old(self).board),
            moved == !old(self).board.spec_check_at(
                old(self).board.pos.x - 1,
                old(self).board.pos.y as int,
                old(self).board.block.coords@,
            ),
    {
        let new_pos = Coord::new(self.board.pos.x - 1, self.board.pos.y);
        if !self.board.check_collision(new_pos, self.board.block.coords) {
            proof {
                lemma_anchor_bounds(
                    self.board,
                    new_pos.x as int,
                    new_pos.y as int,
                    self.board.block.coords@,
                );
            }
            self.board.pos = new_pos;
            true
        } else {
            false
        }
    }

    /// Shifts the active piece one column right when nothing blocks it;
    /// reports whether it moved.
    pub fn move_right(&mut self) -> (moved: bool)
        requires
            old(self).wf(),
        ensures
            final(self).wf(),
            final(self).board == spec_moved_right(old(self).board),
            moved == !old(self).board.spec_check_at(
                old(self).board.pos.x + 1,
                old(self).board.pos.y as int,
                old(self).board.block.coords@,
            ),
    {
        let new_pos = Coord::new(self.board.pos.x + 1, self.board.pos.y);
        if !self.board.check_collision(new_pos, self.board.block.coords) {
            proof {
                lemma_anchor_bounds(
                    self.board,
                    new_pos.x as int,
                    new_pos.y as int,
                    self.board.block.coords@,
                );
            }
            self.board.pos = new_pos;
            true
        } else {
            false
        }
    }

    /// Drops the active piece one row when nothing blocks it; reports
    /// whether it moved. Used directly as the soft drop and repeatedly by
    /// the hard drop.
    pub fn move_down(&mut self) -> (moved: bool)
        requires
            old(self).wf(),
        ensures
            final(self).wf(),
            final(self).board == spec_moved_down(old(self).board),
            moved == !old(self).board.spec_check_at(
                old(self).board.pos.x as int,
                old(self).board.pos.y + 1,
                old(self).board.block.coords@,
            ),
    {
        let new_pos = Coord::new(self.board.pos.x, self.board.pos.y + 1);
        if !self.board.check_collision(new_pos, self.board.block.coords) {
            proof {
                lemma_anchor_bounds(
                    self.board,
                    new_pos.x as int,
                    new_pos.y as int,
                    self.board.block.coords@,
                );
            }
            self.board.pos = new_pos;
            true
        } else {
            false
        }
    }

    /// The hard drop: moves the piece down until the next row collides,
    /// all in one call.
    pub fn drop(&mut self)
        requires
            old(self).wf(),
        ensures
            final(self).wf(),
            spec_drop_post(old(self).board, final(self).board),
    {
        loop
            invariant
                self.wf(),
                self.board == (Board { pos: self.board.pos, ..old(self).board }),
                self.board.pos.x == old(self).board.pos.x,
                old(self).board.pos.y <= self.board.pos.y,
                forall|j: int|
                    old(self).board.pos.y < j <= self.board.pos.y ==> !old(
                        self,
                    ).board.spec_check_at(
                        old(self).board.pos.x as int,
                        j,
                        old(self).board.block.coords@,
                    ),
            ensures
                self.wf(),
                self.board == (Board { pos: self.board.pos, ..old(self).board }),
                self.board.pos.x == old(self).board.pos.x,
                old(self).board.pos.y <= self.board.pos.y,
                forall|j: int|
                    old(self).board.pos.y < j <= self.board.pos.y ==> !old(
                        self,
                    ).board.spec_check_at(
                        old(self).board.pos.x as int,
                        j,
                        old(self).board.block.coords@,
                    ),
                self.board.spec_check_at(
                    self.board.pos.x as int,
                    self.board.pos.y + 1,
                    self.board.block.coords@,
                ),
            decreases self.board.rows - self.board.pos.y,
        {
            let moved = self.move_down();
            if !moved {
                break;
            }
        }
    }

    /// Rotates the active piece a quarter turn. An O piece is left alone.
    /// When the rotated cells collide at the anchor, a kick is searched
    /// one row up, columns left to right; when none fits, the rotation is
    /// silently abandoned.
    pub fn rotate(&mut self)
        requires
            old(self).wf(),
            old(self).board.pos.y > i32::MIN,
        ensures
            final(self).wf(),
            spec_rotate_post(old(self).board, final(self).board),
    {
        if self.board.block.style == BlockStyle::O {
            return;
        }
        let rot = self.board.block.rotated_coords();
        proof {
            crate::block::lemma_rotate_preserves_wf(self.board.block, rot);
        }
        let nb = Block { style: self.board.block.style, coords: rot };
        if !self.board.check_collision(self.board.pos, rot) {
            self.board.block = nb;
            return;
        }
        let base = self.board.pos;
        let c1 = Coord::new(base.x - 1, base.y - 1);
        if !self.board.check_collision(c1, rot) {
            proof {
                lemma_anchor_bounds(self.board, c1.x as int, c1.y as int, rot@);
            }
            self.board.pos = c1;
            self.board.block = nb;
            return;
        }
        let c2 = Coord::new(base.x, base.y - 1);
        if !self.board.check_collision(c2, rot) {
            proof {
                lemma_anchor_bounds(self.board, c2.x as int, c2.y as int, rot@);
            }
            self.board.pos = c2;
            self.board.block = nb;
            return;
        }
        let c3 = Coord::new(base.x + 1, base.y - 1);
        if !self.board.check_collision(c3, rot) {
            proof {
                lemma_anchor_bounds(self.board, c3.x as int, c3.y as int, rot@);
            }
            self.board.pos = c3;
            self.board.block = nb;
            return;
        }
    }

    /// True when `tick` may fire with this cooldown state. The host tests
    /// this before every tick; a violation means the board invariant was
    /// already broken, which the host treats as fatal.
    pub fn can_tick(&self, cooldown_active: bool) -> (ok: bool)
        requires
            self.wf(),
        ensures
            ok == spec_tick_allowed(self.board, cooldown_active),
    {
        let down = Coord::new(self.board.pos.x, self.board.pos.y + 1);
        if !self.board.check_collision(down, self.board.block.coords) {
            return true;
        }
        if cooldown_active {
            return true;
        }
        let in_bounds = self.board.placement_ok();
        in_bounds && self.board.score <= u32::MAX - 1000 && self.board.lines <= u32::MAX - 4
    }

    /// One fall tick. When the row below is free the piece descends one
    /// row. When it is blocked and the cooldown still runs, the lock is
    /// deferred so the player may keep sliding. Otherwise the piece locks
    /// into the grid, full rows are cleared and scored, the anchor resets
    /// to the top center, the lookahead piece becomes active, and `fresh`
    /// becomes the new lookahead.
    pub fn tick(&mut self, cooldown_active: bool, fresh: Block) -> (step: TickStep)
        requires
            old(self).wf(),
            fresh.wf(),
            spec_tick_allowed(old(self).board, cooldown_active),
        ensures
            final(self).wf(),
            spec_tick_post(old(self).board, final(self).board, cooldown_active, fresh, step),
    {
        let new_pos = Coord::new(self.board.pos.x, self.board.pos.y + 1);
        if self.board.check_collision(new_pos, self.board.block.coords) {
            if cooldown_active {
                TickStep::Deferred
            } else {
                let ghost b0 = self.board;
                self.board.update();
                let ghost bl = self.board;
                self.board.pos = Coord::new((self.board.cols / 2) as i32, 0);
                let next = self.board.next_block.clone();
                self.board.block = next;
                self.board.next_block = fresh;
                proof {
                    assert(bl == (Board {
                        pos: b0.pos,
                        block: b0.block,
                        next_block: b0.next_block,
                        ..self.board
                    }));
                }
                TickStep::Locked
            }
        } else {
            proof {
                lemma_anchor_bounds(
                    self.board,
                    new_pos.x as int,
                    new_pos.y as int,
                    self.board.block.coords@,
                );
            }
            self.board.pos = new_pos;
            TickStep::Descended
        }
    }

    /// The keyboard dispatch: up is the hard drop, down the soft drop,
    /// left and right the column shifts, space the rotation; every other
    /// code is ignored. Returns the cooldown the host must arm for the
    /// key, in milliseconds (a watermark: only ever raised by input, and
    /// decayed only by the frame loop).
    pub fn on_key(&mut self, key: u32) -> (cooldown_ms: u32)
        requires
            old(self).wf(),
            key == KEY_SPACE ==> old(self).board.pos.y > i32::MIN,
        ensures
            final(self).wf(),
            key == KEY_UP ==> spec_drop_post(old(self).board, final(self).board) && cooldown_ms
                == 0,
            key == KEY_DOWN ==> final(self).board == spec_moved_down(old(self).board)
                && cooldown_ms == 0,
            key == KEY_LEFT ==> final(self).board == spec_moved_left(old(self).board)
                && cooldown_ms == 250,
            key == KEY_RIGHT ==> final(self).board == spec_moved_right(old(self).board)
                && cooldown_ms == 250,
            key == KEY_SPACE ==> spec_rotate_post(old(self).board, final(self).board)
                && cooldown_ms == 400,
            key != KEY_UP && key != KEY_DOWN && key != KEY_LEFT && key != KEY_RIGHT && key
                != KEY_SPACE ==> *final(self) == *old(self) && cooldown_ms == 0,
    {
        match key {
            KEY_UP => {
                self.drop();
                0
            },
            KEY_DOWN => {
                let _ = self.move_down();
                0
            },
            KEY_LEFT => {
                let _ = self.move_left();
                250
            },
            KEY_RIGHT => {
                let _ = self.move_right();
                250
            },
            KEY_SPACE => {
                self.rotate();
                400
            },
            _ => 0,
        }
    }
}

} // verus!
