use tetris::board::Board;
use tetris::piece::{Direction, Piece};
use tetris::shape::{get_tetris_shapes, Color, Shape};

fn shape(k: usize) -> Shape {
    get_tetris_shapes().remove(k)
}

#[test]
fn can_move_inside_empty_board() {
    let b = Board::new(10, 20);
    let p = Piece { shape: shape(0), x: 4, y: 5 };
    assert!(p.can_move(Direction::Left, &b));
    assert!(p.can_move(Direction::Right, &b));
    assert!(p.can_move(Direction::Down, &b));
}

#[test]
fn cannot_move_past_left_wall() {
    let b = Board::new(10, 20);
    let p = Piece { shape: shape(0), x: 0, y: 5 };
    assert!(!p.can_move(Direction::Left, &b));
}

#[test]
fn cannot_move_past_right_wall() {
    let b = Board::new(10, 20);
    // O piece is 2 wide: at x = 8 its right edge touches column 9
    let p = Piece { shape: shape(0), x: 8, y: 5 };
    assert!(!p.can_move(Direction::Right, &b));
}

#[test]
fn cannot_move_below_floor() {
    let b = Board::new(10, 20);
    // O piece is 2 tall: at y = 18 its bottom edge touches row 19
    let p = Piece { shape: shape(0), x: 4, y: 18 };
    assert!(!p.can_move(Direction::Down, &b));
}

#[test]
fn cannot_move_onto_occupied_cell() {
    let mut b = Board::new(10, 20);
    b.grid[10][3] = Color::Red;
    let p = Piece { shape: shape(0), x: 4, y: 9 };
    // moving left puts the occupied cell at (3, 9)-(4, 10); (10, 3) blocks it
    assert!(!p.can_move(Direction::Left, &b));
    assert!(p.can_move(Direction::Right, &b));
}

#[test]
fn unoccupied_shape_cells_impose_no_constraint() {
    let mut b = Board::new(10, 20);
    // T shape's top row is [0, 1, 0]: a filled board cell under a 0 cell
    // does not block the piece
    b.grid[5][4] = Color::Red;
    let t = Piece { shape: shape(2), x: 4, y: 5 };
    assert!(t.can_stay(&b));
    // but a filled cell under the occupied middle cell does
    let mut b2 = Board::new(10, 20);
    b2.grid[5][5] = Color::Red;
    let t2 = Piece { shape: shape(2), x: 4, y: 5 };
    assert!(!t2.can_stay(&b2));
}

#[test]
fn move_piece_applies_unit_delta() {
    let b = Board::new(10, 20);
    let mut p = Piece { shape: shape(0), x: 4, y: 5 };
    p.move_piece(Direction::Left, &b);
    assert_eq!((p.x, p.y), (3, 5));
    p.move_piece(Direction::Right, &b);
    assert_eq!((p.x, p.y), (4, 5));
    p.move_piece(Direction::Down, &b);
    assert_eq!((p.x, p.y), (4, 6));
}

#[test]
fn blocked_move_changes_nothing() {
    let b = Board::new(10, 20);
    let mut p = Piece { shape: shape(0), x: 0, y: 5 };
    let cells = p.shape.cells.clone();
    p.move_piece(Direction::Left, &b);
    assert_eq!((p.x, p.y), (0, 5));
    assert_eq!(p.shape.cells, cells);
    // repeated blocked input keeps being a no-op
    p.move_piece(Direction::Left, &b);
    assert_eq!((p.x, p.y), (0, 5));
}

#[test]
fn can_stay_detects_overlap() {
    let mut b = Board::new(10, 20);
    let p = Piece { shape: shape(0), x: 4, y: 5 };
    assert!(p.can_stay(&b));
    b.grid[5][4] = Color::Red;
    assert!(!p.can_stay(&b));
}

#[test]
fn can_stay_rejects_out_of_bounds() {
    let b = Board::new(10, 20);
    // O piece 2 wide at x = 9 sticks out on the right
    let p = Piece { shape: shape(0), x: 9, y: 5 };
    assert!(!p.can_stay(&b));
    // O piece 2 tall at y = 19 sticks out below
    let q = Piece { shape: shape(0), x: 4, y: 19 };
    assert!(!q.can_stay(&b));
}

#[test]
fn rotate_piece_in_open_space_installs_rotation() {
    let b = Board::new(10, 20);
    let mut p = Piece { shape: shape(2), x: 4, y: 5 };
    p.rotate_piece(&b);
    assert_eq!(p.shape.cells, vec![vec![1, 0], vec![1, 1], vec![1, 0]]);
    assert_eq!((p.x, p.y), (4, 5));
}

#[test]
fn rotate_piece_nudges_back_from_right_wall() {
    let b = Board::new(10, 20);
    // vertical I (1 wide, 4 tall) hugging the right wall
    let vertical = shape(1).rotate();
    let mut p = Piece { shape: vertical, x: 9, y: 5 };
    p.rotate_piece(&b);
    // the rotation is 4 wide: nudged left until it fits, x = 10 - 4
    assert_eq!(p.x, 6);
    assert_eq!(p.y, 5);
    assert_eq!((p.shape.width, p.shape.height), (4, 1));
}

#[test]
fn rotate_piece_reverts_shape_but_keeps_nudge() {
    let mut b = Board::new(10, 20);
    // vertical I hugging the right wall; a blocker where the nudged
    // horizontal I would land
    b.grid[5][7] = Color::Red;
    let vertical = shape(1).rotate();
    let before = vertical.cells.clone();
    let mut p = Piece { shape: vertical, x: 9, y: 5 };
    p.rotate_piece(&b);
    // shape reverted, but the nudged x stays
    assert_eq!(p.shape.cells, before);
    assert_eq!((p.shape.width, p.shape.height), (1, 4));
    assert_eq!(p.x, 6);
    assert_eq!(p.y, 5);
}

#[test]
fn rotate_piece_at_left_wall_blocked_reverts_in_place() {
    let mut b = Board::new(10, 20);
    // vertical I at the left wall; blockers to its right so the
    // horizontal rotation cannot fit
    b.grid[5][2] = Color::Red;
    let vertical = shape(1).rotate();
    let before = vertical.cells.clone();
    let mut p = Piece { shape: vertical, x: 0, y: 5 };
    p.rotate_piece(&b);
    assert_eq!(p.shape.cells, before);
    assert_eq!(p.x, 0);
    assert_eq!(p.y, 5);
}

#[test]
fn random_piece_spawns_at_top_center() {
    for _ in 0..20 {
        let p = Piece::random_piece();
        assert_eq!(p.y, 0);
        assert_eq!(p.x, 5 - p.shape.width / 2);
    }
}

#[test]
fn piece_duplicate_copies_everything() {
    let p = Piece { shape: shape(4), x: 3, y: 7 };
    let d = p.duplicate();
    assert_eq!(d.x, 3);
    assert_eq!(d.y, 7);
    assert_eq!(d.shape.cells, p.shape.cells);
    assert_eq!(d.shape.color, p.shape.color);
}
