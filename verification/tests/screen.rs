use tetris::bag::bag_from_choices;
use tetris::board::PIECESTARTX;
use tetris::game::{Game, Key};
use tetris::piece::{PieceColor, Tetromino};
use tetris::screen::{held_panel, held_panel_fits, next_pieces_board, CellLook};
use tetris::piece::{rotate_right, MovingTetromino};

fn game_with_o() -> Game {
    Game::with_start(3, bag_from_choices(&vec![0, 0, 0, 0, 0, 0]))
}

#[test]
fn ghost_row_is_where_hard_drop_lands() {
    let mut g = game_with_o();
    let y = g.ghost_row();
    assert_eq!(y, 20);
    g.handle_key(Key::HardDrop);
    assert_eq!(g.current_piece().coords.1, y);
}

#[test]
fn field_view_shows_piece_blocks_and_shadow() {
    let mut g = game_with_o();
    // Lock the O at the bottom, in columns 5 and 6.
    g.handle_key(Key::HardDrop);
    assert!(g.advance_tick());
    // The S comes next; it would land on the O.
    assert_eq!(g.current_piece().tetromino.color, PieceColor::Green);
    let y = g.ghost_row();
    assert_eq!(y, 18);
    let v = g.field_view(y);
    assert_eq!(v.len(), 20);
    assert_eq!(v[0][5], CellLook::Falling(PieceColor::Green));
    assert_eq!(v[0][6], CellLook::Falling(PieceColor::Green));
    assert_eq!(v[1][6], CellLook::Falling(PieceColor::Green));
    assert_eq!(v[1][7], CellLook::Falling(PieceColor::Green));
    assert_eq!(v[19][5], CellLook::Locked(PieceColor::Yellow));
    assert_eq!(v[18][6], CellLook::Locked(PieceColor::Yellow));
    assert_eq!(v[16][5], CellLook::Shadow);
    assert_eq!(v[16][6], CellLook::Shadow);
    assert_eq!(v[17][6], CellLook::Shadow);
    assert_eq!(v[17][7], CellLook::Shadow);
    assert_eq!(v[10][0], CellLook::Empty);
    assert_eq!(g.current_piece().coords, (PIECESTARTX, 2));
}

#[test]
fn next_pieces_panel_shows_back_of_bag_first() {
    let bag = bag_from_choices(&vec![0, 0, 0, 0, 0, 0]);
    let p = next_pieces_board(&bag);
    assert_eq!(p.len(), 20);
    assert_eq!(p[0].len(), 6);
    // S (back of the bag) at the top: rows 1 and 2.
    assert_eq!(p[1][1], Some(PieceColor::Green));
    assert_eq!(p[2][2], Some(PieceColor::Green));
    // O next: rows 5 and 6.
    assert_eq!(p[5][1], Some(PieceColor::Yellow));
    assert_eq!(p[6][2], Some(PieceColor::Yellow));
    // J fifth: rows 17 and 18.
    assert_eq!(p[17][1], Some(PieceColor::Blue));
    assert_eq!(p[18][3], Some(PieceColor::Blue));
}

#[test]
fn held_panel_shows_piece() {
    let t = Tetromino::new_t();
    assert!(held_panel_fits(&t));
    let p = held_panel(&t);
    assert_eq!(p.len(), 4);
    assert_eq!(p[1][2], Some(PieceColor::Magenta));
    assert_eq!(p[2][1], Some(PieceColor::Magenta));
    assert_eq!(p[2][3], Some(PieceColor::Magenta));
}

#[test]
fn upright_i_does_not_fit_held_panel() {
    let upright = rotate_right(&MovingTetromino { tetromino: Tetromino::new_i(), coords: (0, 0) });
    assert!(!held_panel_fits(&upright.tetromino));
    assert!(held_panel_fits(&Tetromino::new_i()));
}
