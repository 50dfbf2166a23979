use tetris::board::Board;
use tetris::game_state::GameState;
use tetris::piece::Piece;
use tetris::shape::{get_tetris_shapes, Color, Shape};

fn shape(k: usize) -> Shape {
    get_tetris_shapes().remove(k)
}

fn game_with(current: Piece, next: Piece) -> GameState {
    GameState {
        board: Board::new(10, 20),
        current_piece: current,
        next_piece: next,
        game_over: false,
        score: 0,
        held_piece: None,
        hold_used: false,
    }
}

#[test]
fn hard_drop_lands_i_piece_on_the_floor() {
    // empty 10x20 board, horizontal I piece at x = 3, y = 0
    let i = Piece { shape: shape(1), x: 3, y: 0 };
    let next = Piece { shape: shape(0), x: 4, y: 0 };
    let mut g = game_with(i, next);
    g.hard_drop();
    // four cyan cells merged into row 19, columns 3-6
    for c in 3..7 {
        assert_eq!(g.board.grid[19][c], Color::Cyan);
    }
    // nothing else was filled and no line cleared
    for r in 0..19 {
        for c in 0..10 {
            assert_eq!(g.board.grid[r][c], Color::Empty);
        }
    }
    for c in (0..3).chain(7..10) {
        assert_eq!(g.board.grid[19][c], Color::Empty);
    }
    assert_eq!(g.score, 0);
    assert!(!g.game_over);
    // the chosen next piece was promoted
    assert_eq!((g.current_piece.x, g.current_piece.y), (4, 0));
}

#[test]
fn hard_drop_into_prepared_gap_clears_one_line() {
    // row 19 filled except columns 3-6; a marker in row 18 to watch the
    // remaining rows shift down by one
    let i = Piece { shape: shape(1), x: 3, y: 0 };
    let next = Piece { shape: shape(0), x: 4, y: 0 };
    let mut g = game_with(i, next);
    for c in (0..3).chain(7..10) {
        g.board.grid[19][c] = Color::Red;
    }
    g.board.grid[18][0] = Color::Green;
    g.hard_drop();
    // the completed row 19 was cleared and scored
    assert_eq!(g.score, 100);
    // an empty row entered at the top; the marker row shifted down to 19
    assert_eq!(g.board.grid[19][0], Color::Green);
    for c in 1..10 {
        assert_eq!(g.board.grid[19][c], Color::Empty);
    }
    for r in 0..19 {
        for c in 0..10 {
            assert_eq!(g.board.grid[r][c], Color::Empty);
        }
    }
    assert!(!g.game_over);
}

#[test]
fn hard_drop_stops_on_stacked_cells() {
    // a filled plateau: the O piece must come to rest on top of it
    let o = Piece { shape: shape(0), x: 4, y: 0 };
    let next = Piece { shape: shape(0), x: 4, y: 0 };
    let mut g = game_with(o, next);
    for c in 0..10 {
        g.board.grid[19][c] = Color::Red;
        g.board.grid[18][c] = Color::Red;
    }
    // leave a notch so the rows are not full
    g.board.grid[19][0] = Color::Empty;
    g.board.grid[18][0] = Color::Empty;
    g.hard_drop();
    assert_eq!(g.board.grid[16][4], Color::Yellow);
    assert_eq!(g.board.grid[16][5], Color::Yellow);
    assert_eq!(g.board.grid[17][4], Color::Yellow);
    assert_eq!(g.board.grid[17][5], Color::Yellow);
    assert_eq!(g.score, 0);
}

#[test]
fn game_over_after_drop_onto_blocked_spawn() {
    // fill the spawn rows except where the current piece sits, so the
    // next piece cannot stay after the lock
    let o = Piece { shape: shape(0), x: 4, y: 18 };
    let next = Piece { shape: shape(0), x: 4, y: 0 };
    let mut g = game_with(o, next);
    for c in 0..10 {
        if c != 2 {
            g.board.grid[0][c] = Color::Red;
            g.board.grid[1][c] = Color::Red;
        }
    }
    g.tick();
    assert!(g.game_over);
    // the piece that could not spawn was not installed: the current piece
    // is still the locked one
    assert_eq!((g.current_piece.x, g.current_piece.y), (4, 18));
}
