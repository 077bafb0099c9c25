use crate::coord::Coord;
use vstd::prelude::*;

verus! {

/// The seven tetromino kinds.
#[derive(Debug, Clone, Copy, PartialEq, Eq, Structural)]
pub enum BlockStyle {
    I,
    J,
    L,
    O,
    S,
    T,
    Z,
}

pub type BlockCoords = [Coord; 4];

/// A falling piece: a kind together with its four cell offsets, each
/// measured from a pivot at the origin.
#[derive(Debug, Clone, Copy)]
pub struct Block {
    pub style: BlockStyle,
    pub coords: BlockCoords,
}

/// The 90-degree rotation about the pivot, per cell: (x, y) -> (y, -x).
pub open spec fn spec_rotate_cell(c: Coord) -> Coord {
    Coord { x: c.y, y: (-c.x) as i32 }
}

/// The rotation transform applied to a whole cell list.
pub open spec fn spec_rotate(cs: Seq<Coord>) -> Seq<Coord> {
    cs.map_values(|c: Coord| spec_rotate_cell(c))
}

/// The kind drawn for an index in [0, 7).
pub open spec fn spec_style_of(r: int) -> BlockStyle {
    if r == 0 {
        BlockStyle::I
    } else if r == 1 {
        BlockStyle::J
    } else if r == 2 {
        BlockStyle::L
    } else if r == 3 {
        BlockStyle::O
    } else if r == 4 {
        BlockStyle::S
    } else if r == 5 {
        BlockStyle::T
    } else {
        BlockStyle::Z
    }
}

/// A cell offset written with mathematical integers, for shape tables.
pub open spec fn sc(x: int, y: int) -> Coord {
    Coord { x: x as i32, y: y as i32 }
}

/// The canonical spawn cells of each kind, pivot-relative, rows growing
/// downward.
pub open spec fn spec_shape(style: BlockStyle) -> Seq<Coord> {
    match style {
        BlockStyle::I => seq![sc(0, -2), sc(0, -1), sc(0, 0), sc(0, 1)],
        BlockStyle::J => seq![sc(0, -1), sc(0, 0), sc(0, 1), sc(-1, 1)],
        BlockStyle::L => seq![sc(0, -1), sc(0, 0), sc(0, 1), sc(1, 0)],
        BlockStyle::O => seq![sc(0, -1), sc(1, -1), sc(1, 0), sc(0, 0)],
        BlockStyle::S => seq![sc(-1, 0), sc(0, 0), sc(0, -1), sc(1, -1)],
        BlockStyle::T => seq![sc(-1, 0), sc(0, 0), sc(1, 0), sc(0, -1)],
        BlockStyle::Z => seq![sc(-1, -1), sc(0, -1), sc(0, 0), sc(1, 0)],
    }
}

impl Block {
    /// Every reachable piece keeps its pivot cell, stays within two cells
    /// of the pivot, and has four distinct cells.
    pub open spec fn wf(self) -> bool {
        &&& self.coords@.contains(Coord { x: 0, y: 0 })
        &&& (forall|i: int|
            0 <= i < 4 ==> -2 <= (#[trigger] self.coords@[i]).x <= 2 && -2 <= self.coords@[i].y
                <= 2)
        &&& (forall|i: int, j: int|
            0 <= i < j < 4 ==> #[trigger] self.coords@[i] != #[trigger] self.coords@[j])
    }

    /// The piece for a drawn index in [0, 7). The host draws a uniform
    /// random index and hands it in, so piece sequences are deterministic
    /// under a fixed source.
    pub fn next(r: usize) -> (b: Block)
        requires
            r < 7,
        ensures
            b.style == spec_style_of(r as int),
            b.coords@ == spec_shape(b.style),
            b.wf(),
    {
        let style = match r {
            0 => BlockStyle::I,
            1 => BlockStyle::J,
            2 => BlockStyle::L,
            3 => BlockStyle::O,
            4 => BlockStyle::S,
            5 => BlockStyle::T,
            _ => BlockStyle::Z,
        };
        let coords = match style {
            BlockStyle::I => [
                Coord { x: 0, y: -2 },
                Coord { x: 0, y: -1 },
                Coord { x: 0, y: 0 },
                Coord { x: 0, y: 1 },
            ],
            BlockStyle::J => [
                Coord { x: 0, y: -1 },
                Coord { x: 0, y: 0 },
                Coord { x: 0, y: 1 },
                Coord { x: -1, y: 1 },
            ],
            BlockStyle::L => [
                Coord { x: 0, y: -1 },
                Coord { x: 0, y: 0 },
                Coord { x: 0, y: 1 },
                Coord { x: 1, y: 0 },
            ],
            BlockStyle::O => [
                Coord { x: 0, y: -1 },
                Coord { x: 1, y: -1 },
                Coord { x: 1, y: 0 },
                Coord { x: 0, y: 0 },
            ],
            BlockStyle::S => [
                Coord { x: -1, y: 0 },
                Coord { x: 0, y: 0 },
                Coord { x: 0, y: -1 },
                Coord { x: 1, y: -1 },
            ],
            BlockStyle::T => [
                Coord { x: -1, y: 0 },
                Coord { x: 0, y: 0 },
                Coord { x: 1, y: 0 },
                Coord { x: 0, y: -1 },
            ],
            BlockStyle::Z => [
                Coord { x: -1, y: -1 },
                Coord { x: 0, y: -1 },
                Coord { x: 0, y: 0 },
                Coord { x: 1, y: 0 },
            ],
        };
        let b = Block { style, coords };
        proof {
            assert(b.coords@ =~= spec_shape(b.style));
            assert(b.coords@.contains(Coord { x: 0, y: 0 })) by {
                if b.style == BlockStyle::I {
                    assert(b.coords@[2] == Coord { x: 0, y: 0 });
                } else if b.style == BlockStyle::O {
                    assert(b.coords@[3] == Coord { x: 0, y: 0 });
                } else if b.style == BlockStyle::Z {
                    assert(b.coords@[2] == Coord { x: 0, y: 0 });
                } else {
                    assert(b.coords@[1] == Coord { x: 0, y: 0 });
                }
            }
        }
        b
    }

    /// The rotated cell list of this piece: each cell (x, y) becomes
    /// (y, -x).
    pub fn rotated_coords(&self) -> (r: BlockCoords)
        requires
            self.wf(),
        ensures
            r@ == spec_rotate(self.coords@),
    {
        let c = &self.coords;
        let r = [
            Coord { x: c[0].y, y: -c[0].x },
            Coord { x: c[1].y, y: -c[1].x },
            Coord { x: c[2].y, y: -c[2].x },
            Coord { x: c[3].y, y: -c[3].x },
        ];
        proof {
            assert(r@ =~= spec_rotate(self.coords@));
        }
        r
    }
}

/// Rotating a well-formed piece's cells yields a well-formed piece again:
/// the pivot cell, the two-cell bound and distinctness all survive the
/// transform.
pub proof fn lemma_rotate_preserves_wf(b: Block, c: BlockCoords)
    requires
        b.wf(),
        c@ == spec_rotate(b.coords@),
    ensures
        (Block { style: b.style, coords: c }).wf(),
{
    let cs = b.coords@;
    let i0 = choose|i: int| 0 <= i < cs.len() && cs[i] == Coord { x: 0, y: 0 };
    assert(c@[i0] == Coord { x: 0, y: 0 });
    assert(c@.contains(Coord { x: 0, y: 0 }));
    assert forall|i: int, j: int| 0 <= i < j < 4 implies #[trigger] c@[i] != #[trigger] c@[j] by {
        assert(cs[i] != cs[j]);
        assert(c@[i] == spec_rotate_cell(cs[i]));
        assert(c@[j] == spec_rotate_cell(cs[j]));
    }
}

/// Applying the rotation transform four times to a piece's cells returns
/// the original cell list: the transform generates a cyclic group of
/// order four.
pub proof fn lemma_rotate_four_times_identity(b: Block)
    requires
        b.wf(),
    ensures
        spec_rotate(spec_rotate(spec_rotate(spec_rotate(b.coords@)))) == b.coords@,
{
    assert(spec_rotate(spec_rotate(spec_rotate(spec_rotate(b.coords@)))) =~= b.coords@);
}

} // verus!
