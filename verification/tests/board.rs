use tetris::board::{
    check_valid_board, clear_lines, copy_board, drop_piece, empty_board, empty_row,
    piece_fits_board, place_piece_in_board, shift_down_board, Board, BOARDX, BOARDY, PIECESTARTX,
};
use tetris::piece::{MovingTetromino, PieceColor, Tetromino};

fn field() -> Board {
    empty_board(20, 10)
}

fn full_row(c: PieceColor) -> Vec<Option<PieceColor>> {
    vec![Some(c); 10]
}

#[test]
fn empty_board_dimensions() {
    let b = empty_board(4, 6);
    assert_eq!(b.len(), 4);
    assert!(b.iter().all(|r| r.len() == 6 && r.iter().all(|c| c.is_none())));
    assert_eq!(empty_row(3), vec![None, None, None]);
}

#[test]
fn copy_board_is_equal() {
    let mut b = field();
    b[3][4] = Some(PieceColor::Red);
    assert_eq!(copy_board(&b), b);
}

#[test]
fn place_t_at_start() {
    let p = MovingTetromino { tetromino: Tetromino::new_t(), coords: (PIECESTARTX, 2) };
    let b = place_piece_in_board(&field(), &p, BOARDX, BOARDY);
    let m = Some(PieceColor::Magenta);
    assert_eq!(b[0][6], m);
    assert_eq!(b[1][5], m);
    assert_eq!(b[1][6], m);
    assert_eq!(b[1][7], m);
    let count: usize = b.iter().map(|r| r.iter().filter(|c| c.is_some()).count()).sum();
    assert_eq!(count, 4);
}

#[test]
fn place_keeps_other_cells() {
    let mut b = field();
    b[19][0] = Some(PieceColor::Green);
    let p = MovingTetromino { tetromino: Tetromino::new_o(), coords: (25, 10) };
    let r = place_piece_in_board(&b, &p, BOARDX, BOARDY);
    assert_eq!(r[19][0], Some(PieceColor::Green));
    assert_eq!(r[8][0], Some(PieceColor::Yellow));
    assert_eq!(r[9][1], Some(PieceColor::Yellow));
    assert_eq!(r[10][0], None);
}

#[test]
fn place_in_panel_with_offset() {
    let panel = empty_board(4, 6);
    let p = MovingTetromino { tetromino: Tetromino::new_j(), coords: (16, 4) };
    let r = place_piece_in_board(&panel, &p, 15, 3);
    assert_eq!(r[1][1], Some(PieceColor::Blue));
    assert_eq!(r[2][1], Some(PieceColor::Blue));
    assert_eq!(r[2][3], Some(PieceColor::Blue));
    assert_eq!(r[1][2], None);
}

#[test]
fn fits_check_matches_bounds() {
    let panel = empty_board(4, 6);
    let p = MovingTetromino { tetromino: Tetromino::new_j(), coords: (16, 4) };
    assert!(piece_fits_board(&panel, &p, 15, 3));
    let far = MovingTetromino { tetromino: Tetromino::new_j(), coords: (16, 7) };
    assert!(!piece_fits_board(&panel, &far, 15, 3));
    let left = MovingTetromino { tetromino: Tetromino::new_j(), coords: (14, 4) };
    assert!(!piece_fits_board(&panel, &left, 15, 3));
}

#[test]
fn start_position_is_not_valid_for_t_because_of_top_row() {
    // The top row of the field is off limits to a resting piece.
    let p = MovingTetromino { tetromino: Tetromino::new_t(), coords: (PIECESTARTX, 2) };
    assert!(!check_valid_board(&field(), &p, 0, 0));
    assert!(check_valid_board(&field(), &p, 0, 1));
}

#[test]
fn i_at_start_is_valid() {
    let p = MovingTetromino { tetromino: Tetromino::new_i(), coords: (PIECESTARTX, 2) };
    assert!(check_valid_board(&field(), &p, 0, 0));
    assert!(check_valid_board(&field(), &p, -1, 0));
    assert!(check_valid_board(&field(), &p, 1, 0));
}

#[test]
fn walls_stop_moves() {
    let p = MovingTetromino { tetromino: Tetromino::new_o(), coords: (BOARDX, 10) };
    assert!(check_valid_board(&field(), &p, 0, 0));
    assert!(!check_valid_board(&field(), &p, -1, 0));
    let q = MovingTetromino { tetromino: Tetromino::new_o(), coords: (BOARDX + 8, 10) };
    assert!(check_valid_board(&field(), &q, 0, 0));
    assert!(!check_valid_board(&field(), &q, 1, 0));
    let bottom = MovingTetromino { tetromino: Tetromino::new_o(), coords: (BOARDX, 20) };
    assert!(check_valid_board(&field(), &bottom, 0, 0));
    assert!(!check_valid_board(&field(), &bottom, 0, 1));
}

#[test]
fn negative_position_is_invalid() {
    let p = MovingTetromino { tetromino: Tetromino::new_o(), coords: (0, 0) };
    assert!(!check_valid_board(&field(), &p, -1, 0));
    assert!(!check_valid_board(&field(), &p, 0, -1));
}

#[test]
fn collision_with_locked_block() {
    let mut b = field();
    b[10][1] = Some(PieceColor::Red);
    let p = MovingTetromino { tetromino: Tetromino::new_o(), coords: (BOARDX, 10) };
    assert!(check_valid_board(&b, &p, 0, 0));
    assert!(!check_valid_board(&b, &p, 0, 1));
}

#[test]
fn drop_lands_on_floor() {
    let mut p = MovingTetromino { tetromino: Tetromino::new_o(), coords: (BOARDX, 3) };
    drop_piece(&field(), &mut p);
    assert_eq!(p.coords, (BOARDX, 20));
}

#[test]
fn drop_lands_on_block() {
    let mut b = field();
    b[15][2] = Some(PieceColor::Blue);
    let mut p = MovingTetromino { tetromino: Tetromino::new_i(), coords: (BOARDX, 3) };
    drop_piece(&b, &mut p);
    // The I piece's blocks are in its second row: they rest on row 14.
    assert_eq!(p.coords, (BOARDX, 15));
}

#[test]
fn drop_from_invalid_start_moves_nothing_if_blocked() {
    let mut b = field();
    b[2][6] = Some(PieceColor::Blue);
    let mut p = MovingTetromino { tetromino: Tetromino::new_t(), coords: (PIECESTARTX, 2) };
    drop_piece(&b, &mut p);
    assert_eq!(p.coords, (PIECESTARTX, 2));
}

#[test]
fn clear_one_full_bottom_row() {
    let mut b = field();
    b[19] = full_row(PieceColor::Red);
    b[18][3] = Some(PieceColor::Blue);
    let r = clear_lines(b);
    assert_eq!(r.len(), 20);
    assert_eq!(r[19][3], Some(PieceColor::Blue));
    assert_eq!(r[19].iter().filter(|c| c.is_some()).count(), 1);
    assert!(r[0].iter().all(|c| c.is_none()));
}

#[test]
fn clear_two_full_bottom_rows() {
    let mut b = field();
    b[19] = full_row(PieceColor::Red);
    b[18] = full_row(PieceColor::Green);
    b[17][0] = Some(PieceColor::Cyan);
    let r = clear_lines(b);
    assert_eq!(r[19][0], Some(PieceColor::Cyan));
    assert!(r[18].iter().all(|c| c.is_none()));
    assert!(r[0].iter().all(|c| c.is_none()));
    assert!(r[1].iter().all(|c| c.is_none()));
}

#[test]
fn full_row_above_a_gap_stays() {
    let mut b = field();
    b[18] = full_row(PieceColor::Red);
    b[19][0] = Some(PieceColor::Blue);
    let r = clear_lines(b.clone());
    assert_eq!(r, b);
}

#[test]
fn clearing_twice_is_clearing_once() {
    let mut b = field();
    b[19] = full_row(PieceColor::Red);
    b[18] = full_row(PieceColor::Red);
    b[17] = full_row(PieceColor::Red);
    b[16][5] = Some(PieceColor::Yellow);
    let once = clear_lines(b);
    let twice = clear_lines(once.clone());
    assert_eq!(once, twice);
}

#[test]
fn clearing_an_entirely_full_board_empties_it() {
    let b: Board = vec![full_row(PieceColor::Green); 20];
    let r = clear_lines(b);
    assert_eq!(r, field());
}

#[test]
fn clearing_leaves_a_board_without_full_bottom_row_alone() {
    let r = clear_lines(field());
    assert_eq!(r, field());
}

#[test]
fn shift_down_board_gives_empty_ten_by_ten() {
    let r = shift_down_board(field(), 3);
    assert_eq!(r, empty_board(10, 10));
}

#[test]
fn locking_where_valid_keeps_locked_blocks() {
    let mut b = field();
    b[19][1] = Some(PieceColor::Red);
    b[18][2] = Some(PieceColor::Green);
    let p = MovingTetromino { tetromino: Tetromino::new_o(), coords: (BOARDX + 3, 20) };
    assert!(check_valid_board(&b, &p, 0, 0));
    let r = place_piece_in_board(&b, &p, BOARDX, BOARDY);
    assert_eq!(r[19][1], Some(PieceColor::Red));
    assert_eq!(r[18][2], Some(PieceColor::Green));
    assert_eq!(r[18][3], Some(PieceColor::Yellow));
    assert_eq!(r[19][4], Some(PieceColor::Yellow));
}

#[test]
fn sideways_move_can_be_undone() {
    let p = MovingTetromino { tetromino: Tetromino::new_l(), coords: (BOARDX + 2, 10) };
    assert!(check_valid_board(&field(), &p, -1, 0));
    let moved = MovingTetromino { tetromino: Tetromino::new_l(), coords: (BOARDX + 1, 10) };
    assert!(check_valid_board(&field(), &moved, 1, 0));
}

#[test]
fn check_on_a_small_board_outside_the_field() {
    // A piece outside the field is refused before any cell is read.
    let small = empty_board(1, 1);
    let p = MovingTetromino { tetromino: Tetromino::new_o(), coords: (0, 0) };
    assert!(!check_valid_board(&small, &p, 0, 0));
}

#[test]
fn an_offset_only_shifts_the_tested_position() {
    let mut b = field();
    b[12][3] = Some(PieceColor::Red);
    for (dx, dy) in [(-1i16, 0i16), (1, 0), (0, 1), (0, -1), (2, 3)] {
        for t in [Tetromino::new_t(), Tetromino::new_i(), Tetromino::new_s()] {
            let p = MovingTetromino { tetromino: t.clone(), coords: (BOARDX + 2, 9) };
            let q = MovingTetromino {
                tetromino: t,
                coords: ((BOARDX as i16 + 2 + dx) as u16, (9 + dy) as u16),
            };
            assert_eq!(check_valid_board(&b, &p, dx, dy), check_valid_board(&b, &q, 0, 0));
        }
    }
}

#[test]
fn placing_where_valid_adds_the_piece_blocks() {
    let mut b = field();
    b[19][0] = Some(PieceColor::Red);
    b[19][9] = Some(PieceColor::Green);
    let count = |b: &Board| -> usize {
        b.iter().map(|r| r.iter().filter(|c| c.is_some()).count()).sum()
    };
    let p = MovingTetromino { tetromino: Tetromino::new_l(), coords: (BOARDX + 3, 19) };
    assert!(check_valid_board(&b, &p, 0, 0));
    let r = place_piece_in_board(&b, &p, BOARDX, BOARDY);
    assert_eq!(count(&r), count(&b) + 4);
}
