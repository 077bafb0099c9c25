use tetris::block::{Block, BlockStyle};
use tetris::coord::Coord;

fn coords_of(b: &Block) -> Vec<(i32, i32)> {
    b.coords.iter().map(|c| (c.x, c.y)).collect()
}

#[test]
fn coord_new_add_sub() {
    let a = Coord::new(3, -2);
    let b = Coord::new(-1, 5);
    let s = a.add(b);
    assert_eq!((s.x, s.y), (2, 3));
    let d = a.sub(b);
    assert_eq!((d.x, d.y), (4, -7));
}

#[test]
fn next_draws_all_seven_kinds() {
    let styles: Vec<BlockStyle> = (0..7).map(|r| Block::next(r).style).collect();
    assert_eq!(
        styles,
        vec![
            BlockStyle::I,
            BlockStyle::J,
            BlockStyle::L,
            BlockStyle::O,
            BlockStyle::S,
            BlockStyle::T,
            BlockStyle::Z,
        ]
    );
}

#[test]
fn next_shape_tables() {
    assert_eq!(coords_of(&Block::next(0)), vec![(0, -2), (0, -1), (0, 0), (0, 1)]);
    assert_eq!(coords_of(&Block::next(1)), vec![(0, -1), (0, 0), (0, 1), (-1, 1)]);
    assert_eq!(coords_of(&Block::next(2)), vec![(0, -1), (0, 0), (0, 1), (1, 0)]);
    assert_eq!(coords_of(&Block::next(3)), vec![(0, -1), (1, -1), (1, 0), (0, 0)]);
    assert_eq!(coords_of(&Block::next(4)), vec![(-1, 0), (0, 0), (0, -1), (1, -1)]);
    assert_eq!(coords_of(&Block::next(5)), vec![(-1, 0), (0, 0), (1, 0), (0, -1)]);
    assert_eq!(coords_of(&Block::next(6)), vec![(-1, -1), (0, -1), (0, 0), (1, 0)]);
}

#[test]
fn rotated_coords_quarter_turn() {
    let t = Block::next(5);
    let r = t.rotated_coords();
    let got: Vec<(i32, i32)> = r.iter().map(|c| (c.x, c.y)).collect();
    // (x, y) -> (y, -x) on (-1,0) (0,0) (1,0) (0,-1)
    assert_eq!(got, vec![(0, 1), (0, 0), (0, -1), (-1, 0)]);
}

#[test]
fn rotated_four_times_is_identity() {
    for kind in 0..7 {
        let mut b = Block::next(kind);
        let before = coords_of(&b);
        for _ in 0..4 {
            b = Block { style: b.style, coords: b.rotated_coords() };
        }
        assert_eq!(coords_of(&b), before);
    }
}
