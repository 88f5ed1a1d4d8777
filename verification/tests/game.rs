use tetris::bag::bag_from_choices;
use tetris::board::{empty_board, BOARDX, PIECESTARTX};
use tetris::game::{Action, Game, Key};
use tetris::piece::PieceColor;

/// A game starting with the T piece and the bag I J T L O S.
fn game_with_t() -> Game {
    Game::with_start(5, bag_from_choices(&vec![0, 0, 0, 0, 0, 0]))
}

/// A game starting with the I piece.
fn game_with_i() -> Game {
    Game::with_start(0, bag_from_choices(&vec![0, 0, 0, 0, 0, 0]))
}

#[test]
fn with_start_sets_up_the_game() {
    let g = game_with_t();
    assert_eq!(g.board(), &empty_board(20, 10));
    assert_eq!(g.current_piece().tetromino.color, PieceColor::Magenta);
    assert_eq!(g.current_piece().coords, (PIECESTARTX, 2));
    assert_eq!(g.ticks(), 0);
    assert_eq!(g.ticks_on_ground(), 0);
    assert!(!g.debug_mode());
    assert!(!g.has_held_piece());
    assert!(g.held_piece().is_none());
    assert_eq!(g.bag().len(), 6);
}

#[test]
fn new_game_starts_without_z() {
    for _ in 0..10 {
        let g = Game::new().unwrap();
        assert_ne!(g.current_piece().tetromino.color, PieceColor::Red);
        assert_eq!(g.bag().len(), 6);
        assert_eq!(g.current_piece().coords, (PIECESTARTX, 2));
    }
}

#[test]
fn left_right_down_move_the_piece() {
    let mut g = game_with_i();
    assert_eq!(g.handle_key(Key::Left), Action::Continue);
    assert_eq!(g.current_piece().coords, (PIECESTARTX - 1, 2));
    g.handle_key(Key::Right);
    g.handle_key(Key::Right);
    assert_eq!(g.current_piece().coords, (PIECESTARTX + 1, 2));
    g.handle_key(Key::Down);
    assert_eq!(g.current_piece().coords, (PIECESTARTX + 1, 3));
}

#[test]
fn walls_stop_the_piece() {
    let mut g = game_with_i();
    for _ in 0..10 {
        g.handle_key(Key::Left);
    }
    assert_eq!(g.current_piece().coords.0, BOARDX);
    for _ in 0..10 {
        g.handle_key(Key::Right);
    }
    assert_eq!(g.current_piece().coords.0, BOARDX + 6);
}

#[test]
fn rotate_turns_when_it_fits() {
    let mut g = game_with_t();
    g.handle_key(Key::Down);
    g.handle_key(Key::Rotate);
    assert_eq!(
        g.current_piece().tetromino.shape,
        vec![vec![false, true, false], vec![false, true, true], vec![false, true, false]]
    );
}

#[test]
fn rotate_refused_at_the_top() {
    // The turned I piece would reach into the field's top row.
    let mut g = game_with_i();
    let before = g.current_piece().tetromino.shape.clone();
    g.handle_key(Key::Rotate);
    assert_eq!(g.current_piece().tetromino.shape, before);
}

#[test]
fn reset_and_quit_change_nothing() {
    let mut g = game_with_t();
    assert_eq!(g.handle_key(Key::Reset), Action::Continue);
    assert_eq!(g.handle_key(Key::Quit), Action::Quit);
    assert_eq!(g.current_piece().coords, (PIECESTARTX, 2));
}

#[test]
fn hold_takes_next_piece_then_swaps() {
    let mut g = game_with_t();
    g.handle_key(Key::Down);
    g.handle_key(Key::Hold);
    assert!(g.has_held_piece());
    assert_eq!(g.held_piece().as_ref().unwrap().color, PieceColor::Magenta);
    // The next piece is the back of the bag: S.
    assert_eq!(g.current_piece().tetromino.color, PieceColor::Green);
    assert_eq!(g.current_piece().coords, (PIECESTARTX, 2));
    // The bag had six; one was taken and five are left: no refill yet.
    assert_eq!(g.bag().len(), 5);
    // A second hold before the piece locks does nothing.
    g.handle_key(Key::Hold);
    assert_eq!(g.current_piece().tetromino.color, PieceColor::Green);
    assert_eq!(g.held_piece().as_ref().unwrap().color, PieceColor::Magenta);
}

#[test]
fn hard_drop_lands_and_arms_the_lock() {
    let mut g = game_with_i();
    assert_eq!(g.handle_key(Key::HardDrop), Action::Continue);
    assert_eq!(g.current_piece().coords, (PIECESTARTX, 20));
    assert_eq!(g.ticks_on_ground(), 20);
    // The next tick locks the piece.
    assert!(g.advance_tick());
    assert_eq!(g.board()[19][5], Some(PieceColor::Cyan));
    assert_eq!(g.board()[19][8], Some(PieceColor::Cyan));
    assert_eq!(g.current_piece().coords, (PIECESTARTX, 2));
    assert_eq!(g.current_piece().tetromino.color, PieceColor::Green);
    assert_eq!(g.ticks_on_ground(), 0);
    assert!(!g.has_held_piece());
}

#[test]
fn debug_toggle_paints_piece_and_asks_to_clear_when_off() {
    let mut g = game_with_i();
    assert_eq!(g.handle_key(Key::ToggleDebug), Action::Continue);
    assert!(g.debug_mode());
    assert_eq!(g.board()[1][5], Some(PieceColor::Cyan));
    assert_eq!(g.handle_key(Key::ToggleDebug), Action::ClearScreen);
    assert!(!g.debug_mode());
}

#[test]
fn gravity_every_tenth_tick() {
    let mut g = game_with_i();
    for _ in 0..9 {
        g.advance_tick();
    }
    assert_eq!(g.current_piece().coords.1, 2);
    assert_eq!(g.ticks(), 9);
    g.advance_tick();
    assert_eq!(g.current_piece().coords.1, 3);
    assert_eq!(g.ticks(), 0);
}

#[test]
fn piece_locks_after_twenty_ticks_on_the_ground() {
    let mut g = game_with_i();
    for _ in 0..30 {
        g.handle_key(Key::Down);
    }
    assert_eq!(g.current_piece().coords, (PIECESTARTX, 20));
    assert_eq!(g.ticks_on_ground(), 0);
    for _ in 0..19 {
        assert!(g.advance_tick());
    }
    assert_eq!(g.ticks_on_ground(), 19);
    assert_eq!(g.current_piece().tetromino.color, PieceColor::Cyan);
    assert!(g.advance_tick());
    assert_eq!(g.ticks_on_ground(), 0);
    assert_eq!(g.board()[19][5], Some(PieceColor::Cyan));
    assert_eq!(g.current_piece().tetromino.color, PieceColor::Green);
}

/// Drops the falling piece and locks it with one tick.
fn drop_and_lock(g: &mut Game) {
    assert_eq!(g.handle_key(Key::HardDrop), Action::Continue);
    assert!(g.advance_tick());
}

#[test]
fn full_bottom_row_is_cleared_on_lock() {
    let mut g = game_with_i();
    // I flat in columns 0 to 3.
    for _ in 0..5 {
        g.handle_key(Key::Left);
    }
    drop_and_lock(&mut g);
    // S with its lower blocks in columns 4 and 5.
    assert_eq!(g.current_piece().tetromino.color, PieceColor::Green);
    g.handle_key(Key::Down);
    g.handle_key(Key::Left);
    g.handle_key(Key::Left);
    drop_and_lock(&mut g);
    // O in columns 6 and 7.
    assert_eq!(g.current_piece().tetromino.color, PieceColor::Yellow);
    g.handle_key(Key::Down);
    g.handle_key(Key::Right);
    drop_and_lock(&mut g);
    // L turned upright, its foot in columns 8 and 9.
    assert_eq!(g.current_piece().tetromino.color, PieceColor::DarkYellow);
    g.handle_key(Key::Down);
    g.handle_key(Key::Rotate);
    g.handle_key(Key::Right);
    g.handle_key(Key::Right);
    assert_eq!(g.board()[19].iter().filter(|c| c.is_some()).count(), 8);
    drop_and_lock(&mut g);
    // The full bottom row is gone; the row above it moved down.
    assert_eq!(g.board()[19].iter().filter(|c| c.is_some()).count(), 5);
    assert_eq!(g.board()[19][3], Some(PieceColor::Green));
    assert_eq!(g.board()[19][4], Some(PieceColor::Green));
    assert_eq!(g.board()[19][6], Some(PieceColor::Yellow));
    assert_eq!(g.board()[19][8], Some(PieceColor::DarkYellow));
    assert!(g.board()[0].iter().all(|c| c.is_none()));
}

#[test]
fn hold_swaps_after_the_next_lock() {
    let mut g = game_with_i();
    g.handle_key(Key::Hold);
    assert_eq!(g.held_piece().as_ref().unwrap().color, PieceColor::Cyan);
    assert_eq!(g.current_piece().tetromino.color, PieceColor::Green);
    g.handle_key(Key::HardDrop);
    g.advance_tick();
    assert!(!g.has_held_piece());
    // The bag held five before this lock: a new bag came in front.
    assert_eq!(g.bag().len(), 10);
    assert_eq!(g.current_piece().tetromino.color, PieceColor::Yellow);
    g.handle_key(Key::Hold);
    assert_eq!(g.current_piece().tetromino.color, PieceColor::Cyan);
    assert_eq!(g.current_piece().coords, (PIECESTARTX, 2));
    assert_eq!(g.held_piece().as_ref().unwrap().color, PieceColor::Yellow);
    assert_eq!(g.bag().len(), 10);
}
