use tetris::block::Block;
use tetris::board::{Board, Cell};
use tetris::coord::Coord;

fn fresh_board(rows: usize, cols: usize) -> Board {
    Board::new(rows, cols, 25, Block::next(0), Block::next(1))
}

#[test]
fn new_board_fields() {
    let b = fresh_board(20, 10);
    assert_eq!(b.rows, 20);
    assert_eq!(b.cols, 10);
    assert_eq!(b.cell_size_px, 25);
    assert_eq!(b.cells.len(), 20);
    for row in &b.cells {
        assert_eq!(row.len(), 10);
        for cell in row {
            assert_eq!(*cell, Cell::Empty);
        }
    }
    assert_eq!((b.pos.x, b.pos.y), (5, 0));
    assert_eq!(b.score, 0);
    assert_eq!(b.lines, 0);
    assert_eq!(b.level, 0);
    assert_eq!(b.combo, 0);
}

#[test]
fn spawn_never_collides_on_empty_board() {
    for kind in 0..7 {
        let b = Board::new(20, 10, 25, Block::next(kind), Block::next(0));
        assert!(!b.check_collision(b.pos, b.block.coords));
    }
}

#[test]
fn collision_against_walls_and_floor() {
    let b = fresh_board(20, 10);
    let o = Block::next(3);
    // O spans columns x..x+1 and rows y-1..y.
    assert!(b.check_collision(Coord::new(-1, 5), o.coords));
    assert!(b.check_collision(Coord::new(9, 5), o.coords));
    assert!(!b.check_collision(Coord::new(8, 5), o.coords));
    assert!(b.check_collision(Coord::new(4, 20), o.coords));
    assert!(!b.check_collision(Coord::new(4, 19), o.coords));
}

#[test]
fn collision_above_top_is_allowed() {
    let b = fresh_board(20, 10);
    let o = Block::next(3);
    assert!(!b.check_collision(Coord::new(4, -3), o.coords));
}

#[test]
fn collision_with_filled_cell() {
    let mut b = fresh_board(20, 10);
    b.cells[10][4] = Cell::Filled;
    let o = Block::next(3);
    // A placement covering (4, 10) collides, its neighbor does not.
    assert!(b.check_collision(Coord::new(4, 10), o.coords));
    assert!(!b.check_collision(Coord::new(6, 10), o.coords));
}

#[test]
fn lock_without_clear_stamps_cells() {
    let mut b = fresh_board(20, 10);
    b.pos = Coord::new(5, 19);
    b.block = Block::next(3);
    b.update();
    assert_eq!(b.cells[18][5], Cell::Filled);
    assert_eq!(b.cells[18][6], Cell::Filled);
    assert_eq!(b.cells[19][5], Cell::Filled);
    assert_eq!(b.cells[19][6], Cell::Filled);
    assert_eq!(b.score, 0);
    assert_eq!(b.lines, 0);
}

#[test]
fn single_row_clear_scores_100() {
    let mut b = fresh_board(20, 10);
    for x in 1..10 {
        b.cells[19][x] = Cell::Filled;
    }
    b.cells[17][3] = Cell::Filled;
    // A vertical I in column 0 fills the hole at (0, 19).
    b.block = Block::next(0);
    b.pos = Coord::new(0, 18);
    b.update();
    assert_eq!(b.cells.len(), 20);
    assert_eq!(b.score, 100);
    assert_eq!(b.lines, 1);
    // A fresh empty row was inserted at the top.
    for x in 0..10 {
        assert_eq!(b.cells[0][x], Cell::Empty);
    }
    // The stamped rows above the cleared one shifted down by one, order kept.
    assert_eq!(b.cells[17][0], Cell::Filled);
    assert_eq!(b.cells[18][0], Cell::Filled);
    assert_eq!(b.cells[19][0], Cell::Filled);
    assert_eq!(b.cells[18][3], Cell::Filled);
    assert_eq!(b.cells[19][1], Cell::Empty);
}

#[test]
fn double_and_triple_clears() {
    let mut b = fresh_board(20, 10);
    for x in 1..10 {
        b.cells[18][x] = Cell::Filled;
        b.cells[19][x] = Cell::Filled;
    }
    // A vertical I in column 0 completes rows 18 and 19.
    b.block = Block::next(0);
    b.pos = Coord::new(0, 18);
    b.update();
    assert_eq!(b.score, 250);
    assert_eq!(b.lines, 2);

    let mut b3 = fresh_board(20, 10);
    for x in 1..10 {
        b3.cells[17][x] = Cell::Filled;
        b3.cells[18][x] = Cell::Filled;
        b3.cells[19][x] = Cell::Filled;
    }
    b3.block = Block::next(0);
    b3.pos = Coord::new(0, 18);
    b3.update();
    assert_eq!(b3.score, 500);
    assert_eq!(b3.lines, 3);
}

#[test]
fn quad_clear_scores_1000_not_400() {
    let mut b = fresh_board(20, 10);
    for y in 16..20 {
        for x in 1..10 {
            b.cells[y][x] = Cell::Filled;
        }
    }
    // A vertical I in column 0 completes all four rows at once.
    b.block = Block::next(0);
    b.pos = Coord::new(0, 18);
    b.update();
    assert_eq!(b.score, 1000);
    assert_eq!(b.lines, 4);
    for y in 0..20 {
        for x in 0..10 {
            assert_eq!(b.cells[y][x], Cell::Empty);
        }
    }
}

#[test]
fn clear_keeps_rows_below_in_place() {
    let mut b = fresh_board(20, 10);
    // A resting stack in row 19, and a full row 18 up to its last hole.
    b.cells[19][7] = Cell::Filled;
    for x in 1..10 {
        b.cells[18][x] = Cell::Filled;
    }
    b.block = Block::next(0);
    b.pos = Coord::new(0, 17);
    // I fills (0, 15..18); row 18 completes and is removed.
    b.update();
    assert_eq!(b.score, 100);
    // Row 19 is below the cleared row: untouched.
    assert_eq!(b.cells[19][7], Cell::Filled);
    // The stamped rows 15..17 shifted down to 16..18.
    assert_eq!(b.cells[16][0], Cell::Filled);
    assert_eq!(b.cells[17][0], Cell::Filled);
    assert_eq!(b.cells[18][0], Cell::Filled);
    assert_eq!(b.cells[15][0], Cell::Empty);
}

#[test]
fn placement_ok_reports_bounds() {
    let mut b = fresh_board(20, 10);
    b.block = Block::next(0);
    b.pos = Coord::new(0, 18);
    assert!(b.placement_ok());
    b.pos = Coord::new(0, 0);
    // The I piece reaches two rows above its anchor: out of the grid.
    assert!(!b.placement_ok());
}
