use tetris::block::Block;
use tetris::board::Cell;
use tetris::coord::Coord;
use tetris::{Game, TickStep, KEY_DOWN, KEY_LEFT, KEY_RIGHT, KEY_SPACE, KEY_UP};

fn fresh_game(active: usize, lookahead: usize) -> Game {
    Game::make(20, 10, 25, Block::next(active), Block::next(lookahead))
}

#[test]
fn make_centers_the_anchor() {
    let g = fresh_game(5, 3);
    assert_eq!((g.board.pos.x, g.board.pos.y), (5, 0));
    assert_eq!(g.get_tick_time(), 650);
}

#[test]
fn tick_time_shrinks_with_level_unclamped() {
    let mut g = fresh_game(5, 3);
    g.board.level = 13;
    assert_eq!(g.get_tick_time(), 0);
    g.board.level = 14;
    assert_eq!(g.get_tick_time(), -50);
}

#[test]
fn moves_shift_and_report() {
    let mut g = fresh_game(3, 0);
    assert!(g.move_left());
    assert_eq!(g.board.pos.x, 4);
    assert!(g.move_right());
    assert!(g.move_right());
    assert_eq!(g.board.pos.x, 6);
    assert!(g.move_down());
    assert_eq!(g.board.pos.y, 1);
}

#[test]
fn moves_never_cross_the_walls() {
    // O spans columns x..x+1; from the center it takes five accepted
    // steps to reach the left wall, and further calls are refused.
    let mut g = fresh_game(3, 0);
    for _ in 0..5 {
        assert!(g.move_left());
    }
    assert_eq!(g.board.pos.x, 0);
    for _ in 0..3 {
        assert!(!g.move_left());
        assert_eq!(g.board.pos.x, 0);
    }
    // And three accepted steps to the right wall from the center.
    let mut g2 = fresh_game(3, 0);
    for _ in 0..3 {
        assert!(g2.move_right());
    }
    assert_eq!(g2.board.pos.x, 8);
    assert!(!g2.move_right());
    assert_eq!(g2.board.pos.x, 8);
}

#[test]
fn drop_equals_repeated_move_down() {
    let mut by_drop = fresh_game(6, 0);
    let mut by_steps = fresh_game(6, 0);
    by_drop.drop();
    let mut steps = 0;
    while by_steps.move_down() {
        steps += 1;
    }
    assert!(steps > 0);
    assert_eq!((by_drop.board.pos.x, by_drop.board.pos.y), (by_steps.board.pos.x, by_steps.board.pos.y));
    assert_eq!(by_drop.board.cells, by_steps.board.cells);
}

#[test]
fn drop_rests_on_the_floor() {
    let mut g = fresh_game(3, 0);
    g.drop();
    // O spans rows y-1..y: resting on the floor means y == rows - 1.
    assert_eq!(g.board.pos.y, 19);
    assert!(!g.move_down());
}

#[test]
fn drop_rests_on_a_stack() {
    let mut g = fresh_game(3, 0);
    for x in 0..10 {
        g.board.cells[19][x] = Cell::Filled;
    }
    g.drop();
    assert_eq!(g.board.pos.y, 18);
}

#[test]
fn rotate_leaves_o_alone() {
    let mut g = fresh_game(3, 0);
    let before = g.board.block.coords;
    let pos = g.board.pos;
    g.rotate();
    assert_eq!(g.board.block.coords, before);
    assert_eq!((g.board.pos.x, g.board.pos.y), (pos.x, pos.y));
}

#[test]
fn rotate_commits_in_free_space() {
    // T at the spawn center has room: the rotation commits in place.
    let mut g = fresh_game(5, 0);
    g.rotate();
    let got: Vec<(i32, i32)> = g.board.block.coords.iter().map(|c| (c.x, c.y)).collect();
    assert_eq!(got, vec![(0, 1), (0, 0), (0, -1), (-1, 0)]);
    assert_eq!((g.board.pos.x, g.board.pos.y), (5, 0));
}

#[test]
fn rotate_four_times_restores_the_piece() {
    let mut g = fresh_game(5, 0);
    g.move_down();
    g.move_down();
    let before = g.board.block.coords;
    for _ in 0..4 {
        g.rotate();
    }
    assert_eq!(g.board.block.coords, before);
    assert_eq!((g.board.pos.x, g.board.pos.y), (5, 2));
}

#[test]
fn rotate_kicks_off_the_left_wall() {
    // A vertical I one column off the left wall cannot rotate in place:
    // its horizontal cells would cross the wall. The kick search settles
    // on one row up, one column right, where they fit.
    let mut g = fresh_game(0, 0);
    for _ in 0..4 {
        g.move_left();
    }
    g.move_down();
    g.move_down();
    g.move_down();
    assert_eq!((g.board.pos.x, g.board.pos.y), (1, 3));
    g.rotate();
    // Rotated I cells: (x, y) -> (y, -x) gives (-2,0) (-1,0) (0,0) (1,0).
    let got: Vec<(i32, i32)> = g.board.block.coords.iter().map(|c| (c.x, c.y)).collect();
    assert_eq!(got, vec![(-2, 0), (-1, 0), (0, 0), (1, 0)]);
    assert_eq!((g.board.pos.x, g.board.pos.y), (2, 2));
}

#[test]
fn rotate_abandoned_when_nothing_fits() {
    // A vertical I flush against the wall: the rotated cells reach two
    // columns past the anchor, further than any kick offset can move it,
    // so the rotation is silently abandoned.
    let mut g = fresh_game(0, 0);
    for _ in 0..5 {
        g.move_left();
    }
    g.drop();
    assert_eq!((g.board.pos.x, g.board.pos.y), (0, 18));
    let before = g.board.block.coords;
    g.rotate();
    assert_eq!(g.board.block.coords, before);
    assert_eq!((g.board.pos.x, g.board.pos.y), (0, 18));
}

#[test]
fn scenario_o_three_lefts_then_drop() {
    // O spawned at the column-center anchor (5, 0) of a 10-column board:
    // three accepted lefts put its cells in columns 2..3, and the drop
    // settles it on the floor, rows 18..19.
    let mut g = fresh_game(3, 0);
    for _ in 0..3 {
        assert!(g.move_left());
    }
    g.drop();
    assert_eq!((g.board.pos.x, g.board.pos.y), (2, 19));
    g.board.update();
    assert_eq!(g.board.cells[18][2], Cell::Filled);
    assert_eq!(g.board.cells[18][3], Cell::Filled);
    assert_eq!(g.board.cells[19][2], Cell::Filled);
    assert_eq!(g.board.cells[19][3], Cell::Filled);
    assert_eq!(g.board.cells[19][1], Cell::Empty);
}

#[test]
fn scenario_o_flush_against_left_wall() {
    // Five accepted lefts reach the wall; the piece settles flush in
    // columns 0..1 on the bottom two rows, with no false collision.
    let mut g = fresh_game(3, 0);
    let mut lefts = 0;
    while g.move_left() {
        lefts += 1;
    }
    assert_eq!(lefts, 5);
    g.drop();
    assert_eq!((g.board.pos.x, g.board.pos.y), (0, 19));
    g.board.update();
    assert_eq!(g.board.cells[18][0], Cell::Filled);
    assert_eq!(g.board.cells[18][1], Cell::Filled);
    assert_eq!(g.board.cells[19][0], Cell::Filled);
    assert_eq!(g.board.cells[19][1], Cell::Filled);
}

#[test]
fn scenario_last_gap_triggers_one_clear() {
    // Fill the bottom row in every column but one, then lock a piece
    // that fills exactly that last cell: one clear, +100.
    let mut g = fresh_game(0, 1);
    for x in 1..10 {
        g.board.cells[19][x] = Cell::Filled;
    }
    for _ in 0..5 {
        assert!(g.move_left());
    }
    g.drop();
    // The vertical I rests in column 0, rows 16..19; only its lowest
    // cell lies in the nearly full row.
    assert_eq!((g.board.pos.x, g.board.pos.y), (0, 18));
    assert!(g.can_tick(false));
    let step = g.tick(false, Block::next(2));
    assert_eq!(step, TickStep::Locked);
    assert_eq!(g.board.score, 100);
    assert_eq!(g.board.lines, 1);
    // The rest of the I shifted down one row with the clear.
    assert_eq!(g.board.cells[17][0], Cell::Filled);
    assert_eq!(g.board.cells[18][0], Cell::Filled);
    assert_eq!(g.board.cells[19][0], Cell::Filled);
    assert_eq!(g.board.cells[19][1], Cell::Empty);
    for x in 0..10 {
        assert_eq!(g.board.cells[0][x], Cell::Empty);
    }
}

#[test]
fn tick_descends_when_free() {
    let mut g = fresh_game(3, 0);
    let step = g.tick(false, Block::next(1));
    assert_eq!(step, TickStep::Descended);
    assert_eq!(g.board.pos.y, 1);
    assert_eq!(g.board.score, 0);
}

#[test]
fn tick_defers_lock_while_cooldown_runs() {
    let mut g = fresh_game(3, 0);
    g.drop();
    let before_pos = (g.board.pos.x, g.board.pos.y);
    let step = g.tick(true, Block::next(1));
    assert_eq!(step, TickStep::Deferred);
    assert_eq!((g.board.pos.x, g.board.pos.y), before_pos);
    assert_eq!(g.board.cells[19][5], Cell::Empty);
}

#[test]
fn tick_locks_and_spawns_the_lookahead() {
    let mut g = fresh_game(3, 6);
    g.drop();
    assert!(g.can_tick(false));
    let fresh = Block::next(4);
    let step = g.tick(false, fresh);
    assert_eq!(step, TickStep::Locked);
    assert_eq!(g.board.cells[19][5], Cell::Filled);
    assert_eq!(g.board.cells[19][6], Cell::Filled);
    assert_eq!((g.board.pos.x, g.board.pos.y), (5, 0));
    assert_eq!(g.board.block.style, Block::next(6).style);
    assert_eq!(g.board.next_block.style, fresh.style);
}

#[test]
fn can_tick_is_true_on_a_fresh_board() {
    let g = fresh_game(0, 0);
    assert!(g.can_tick(false));
    assert!(g.can_tick(true));
}

#[test]
fn can_tick_refuses_a_lock_above_the_top() {
    // A vertical I blocked right at spawn would lock cells above the
    // grid; the host must detect this instead of corrupting the board.
    let mut g = fresh_game(0, 0);
    for x in 0..10 {
        g.board.cells[3][x] = Cell::Filled;
    }
    assert!(g.move_down());
    assert!(!g.move_down());
    assert!(g.can_tick(true));
    assert!(!g.can_tick(false));
}

#[test]
fn on_key_dispatches_and_arms_cooldowns() {
    let mut g = fresh_game(5, 0);
    assert_eq!(g.on_key(KEY_LEFT), 250);
    assert_eq!(g.board.pos.x, 4);
    assert_eq!(g.on_key(KEY_RIGHT), 250);
    assert_eq!(g.board.pos.x, 5);
    assert_eq!(g.on_key(KEY_DOWN), 0);
    assert_eq!(g.board.pos.y, 1);
    assert_eq!(g.on_key(KEY_SPACE), 400);
    assert_eq!(g.on_key(KEY_UP), 0);
    assert_eq!(g.board.pos.y, 18);
}

#[test]
fn on_key_ignores_unknown_codes() {
    let mut g = fresh_game(5, 0);
    let before_pos = (g.board.pos.x, g.board.pos.y);
    assert_eq!(g.on_key(13), 0);
    assert_eq!(g.on_key(65), 0);
    assert_eq!((g.board.pos.x, g.board.pos.y), before_pos);
}
