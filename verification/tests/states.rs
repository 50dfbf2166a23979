use tetris::board::Board;
use tetris::game_state::GameState;
use tetris::piece::Piece;
use tetris::shape::{get_tetris_shapes, Color, Shape};

fn shape(k: usize) -> Shape {
    get_tetris_shapes().remove(k)
}

/// A game on an empty 10 by 20 board with chosen current and next pieces.
fn game_with(current: Piece, next: Piece) -> GameState {
    GameState {
        board: Board::new(10, 20),
        current_piece: current,
        next_piece: next,
        game_over: false,
        score: 0,
        held_piece: None,
        hold_used: false,
    }
}

fn i_piece_at(x: u8, y: u8) -> Piece {
    Piece { shape: shape(1), x, y }
}

fn o_piece_at(x: u8, y: u8) -> Piece {
    Piece { shape: shape(0), x, y }
}

#[test]
fn new_game_starts_clean() {
    let g = GameState::new(10, 20);
    assert_eq!(g.board.width, 10);
    assert_eq!(g.board.height, 20);
    assert!(!g.game_over);
    assert_eq!(g.score, 0);
    assert!(g.held_piece.is_none());
    assert!(!g.hold_used);
    for row in &g.board.grid {
        assert!(row.iter().all(|&c| c == Color::Empty));
    }
    assert_eq!(g.current_piece.y, 0);
    assert_eq!(g.current_piece.x, 5 - g.current_piece.shape.width / 2);
    assert_eq!(g.next_piece.y, 0);
    assert_eq!(g.next_piece.x, 5 - g.next_piece.shape.width / 2);
}

#[test]
fn tick_moves_piece_down_when_free() {
    let mut g = game_with(o_piece_at(4, 5), o_piece_at(4, 0));
    g.tick();
    assert_eq!((g.current_piece.x, g.current_piece.y), (4, 6));
    assert_eq!(g.score, 0);
    assert!(!g.game_over);
}

#[test]
fn tick_locks_landed_piece() {
    let mut g = game_with(o_piece_at(4, 18), o_piece_at(4, 0));
    g.tick();
    // the O piece merged into rows 18-19, columns 4-5
    assert_eq!(g.board.grid[18][4], Color::Yellow);
    assert_eq!(g.board.grid[18][5], Color::Yellow);
    assert_eq!(g.board.grid[19][4], Color::Yellow);
    assert_eq!(g.board.grid[19][5], Color::Yellow);
    assert_eq!(g.score, 0);
    // the chosen next piece was promoted
    assert_eq!((g.current_piece.x, g.current_piece.y), (4, 0));
    assert!(!g.game_over);
}

/// Rig a one-column gap in the bottom `rows_to_complete` rows, lock a
/// vertical I piece into it, and check the awarded score.
fn scoring_case(rows_to_complete: usize, expected: u32) {
    let vertical_i = Piece { shape: shape(1).rotate(), x: 2, y: 16 };
    let mut g = game_with(vertical_i, o_piece_at(4, 0));
    for r in (20 - rows_to_complete)..20 {
        for c in 0..10 {
            if c != 2 {
                g.board.grid[r][c] = Color::Red;
            }
        }
    }
    g.merge_current_piece();
    assert_eq!(g.score, expected);
    assert!(!g.hold_used);
}

#[test]
fn locking_with_one_full_row_awards_100() {
    scoring_case(1, 100);
}

#[test]
fn locking_with_two_full_rows_awards_300() {
    scoring_case(2, 300);
}

#[test]
fn locking_with_three_full_rows_awards_500() {
    scoring_case(3, 500);
}

#[test]
fn locking_with_four_full_rows_awards_800() {
    scoring_case(4, 800);
}

#[test]
fn locking_with_no_full_row_awards_nothing() {
    let mut g = game_with(o_piece_at(4, 18), o_piece_at(4, 0));
    g.score = 250;
    g.merge_current_piece();
    assert_eq!(g.score, 250);
}

#[test]
fn merge_releases_hold_latch() {
    let mut g = game_with(o_piece_at(4, 18), o_piece_at(4, 0));
    g.hold_used = true;
    g.merge_current_piece();
    assert!(!g.hold_used);
}

#[test]
fn spawn_promotes_next_piece_on_open_board() {
    let mut g = game_with(o_piece_at(4, 18), i_piece_at(3, 0));
    g.spawn_new_piece();
    assert!(!g.game_over);
    assert_eq!((g.current_piece.x, g.current_piece.y), (3, 0));
    assert_eq!(g.current_piece.shape.cells, vec![vec![1, 1, 1, 1]]);
    // a fresh next piece was drawn at the spawn position
    assert_eq!(g.next_piece.y, 0);
    assert_eq!(g.next_piece.x, 5 - g.next_piece.shape.width / 2);
}

#[test]
fn blocked_spawn_sets_game_over_and_keeps_current() {
    let mut g = game_with(o_piece_at(4, 18), o_piece_at(4, 0));
    // rig the spawn rows so any piece overlaps
    for c in 0..10 {
        g.board.grid[0][c] = Color::Red;
        g.board.grid[1][c] = Color::Red;
    }
    g.spawn_new_piece();
    assert!(g.game_over);
    // the invalid piece was not installed
    assert_eq!((g.current_piece.x, g.current_piece.y), (4, 18));
    assert_eq!(g.current_piece.shape.cells, vec![vec![1, 1], vec![1, 1]]);
}

#[test]
fn commands_after_game_over_change_nothing() {
    let mut g = game_with(o_piece_at(4, 5), o_piece_at(4, 0));
    g.game_over = true;
    g.score = 123;
    let (x, y) = (g.current_piece.x, g.current_piece.y);
    g.tick();
    g.move_left();
    g.move_right();
    g.move_down();
    g.rotate();
    g.hard_drop();
    g.hold_piece();
    assert_eq!((g.current_piece.x, g.current_piece.y), (x, y));
    assert_eq!(g.score, 123);
    assert!(g.held_piece.is_none());
    assert!(!g.hold_used);
}

#[test]
fn move_commands_step_current_piece() {
    let mut g = game_with(o_piece_at(4, 5), o_piece_at(4, 0));
    g.move_left();
    assert_eq!((g.current_piece.x, g.current_piece.y), (3, 5));
    g.move_right();
    assert_eq!((g.current_piece.x, g.current_piece.y), (4, 5));
    g.move_down();
    assert_eq!((g.current_piece.x, g.current_piece.y), (4, 6));
}

#[test]
fn rotate_command_rotates_current_piece() {
    let mut g = game_with(Piece { shape: shape(2), x: 4, y: 5 }, o_piece_at(4, 0));
    g.rotate();
    assert_eq!(g.current_piece.shape.cells, vec![vec![1, 0], vec![1, 1], vec![1, 0]]);
    assert_eq!((g.current_piece.x, g.current_piece.y), (4, 5));
}

#[test]
fn hold_with_nothing_held_stores_copy_and_spawns() {
    let mut g = game_with(Piece { shape: shape(2), x: 2, y: 7 }, i_piece_at(3, 0));
    g.hold_piece();
    assert!(g.hold_used);
    let held = g.held_piece.as_ref().expect("piece should be held");
    // the held piece is a copy of the prior current piece, position included
    assert_eq!((held.x, held.y), (2, 7));
    assert_eq!(held.shape.cells, vec![vec![0, 1, 0], vec![1, 1, 1]]);
    assert_eq!(held.shape.color, Color::Purple);
    // the chosen next piece became current
    assert_eq!((g.current_piece.x, g.current_piece.y), (3, 0));
    assert_eq!(g.current_piece.shape.cells, vec![vec![1, 1, 1, 1]]);
}

#[test]
fn second_hold_before_lock_is_a_no_op() {
    let mut g = game_with(Piece { shape: shape(2), x: 2, y: 7 }, i_piece_at(3, 0));
    g.hold_piece();
    let held_cells = g.held_piece.as_ref().unwrap().shape.cells.clone();
    let (cx, cy) = (g.current_piece.x, g.current_piece.y);
    let cur_cells = g.current_piece.shape.cells.clone();
    g.hold_piece();
    assert_eq!(g.held_piece.as_ref().unwrap().shape.cells, held_cells);
    assert_eq!((g.current_piece.x, g.current_piece.y), (cx, cy));
    assert_eq!(g.current_piece.shape.cells, cur_cells);
    assert!(g.hold_used);
}

#[test]
fn hold_with_piece_held_swaps_and_recenters() {
    let mut g = game_with(Piece { shape: shape(2), x: 2, y: 7 }, i_piece_at(3, 0));
    g.held_piece = Some(o_piece_at(6, 9));
    g.hold_piece();
    // the held O piece became current, recentered at the top
    assert_eq!(g.current_piece.shape.cells, vec![vec![1, 1], vec![1, 1]]);
    assert_eq!((g.current_piece.x, g.current_piece.y), (5 - 1, 0));
    // the prior current piece is now held, position untouched
    let held = g.held_piece.as_ref().unwrap();
    assert_eq!(held.shape.cells, vec![vec![0, 1, 0], vec![1, 1, 1]]);
    assert_eq!((held.x, held.y), (2, 7));
    assert!(g.hold_used);
    // the next piece was not consumed
    assert_eq!(g.next_piece.shape.cells, vec![vec![1, 1, 1, 1]]);
}
