use tetris::piece::{rotate_right, MovingTetromino, PieceColor, Tetromino};

fn grid(rows: &[&[u8]]) -> Vec<Vec<bool>> {
    rows.iter().map(|r| r.iter().map(|&c| c == 1).collect()).collect()
}

#[test]
fn t_piece_shape_and_color() {
    let t = Tetromino::new_t();
    assert_eq!(t.shape, grid(&[&[0, 1, 0], &[1, 1, 1], &[0, 0, 0]]));
    assert_eq!(t.color, PieceColor::Magenta);
}

#[test]
fn i_piece_shape_and_color() {
    let t = Tetromino::new_i();
    assert_eq!(
        t.shape,
        grid(&[&[0, 0, 0, 0], &[1, 1, 1, 1], &[0, 0, 0, 0], &[0, 0, 0, 0]])
    );
    assert_eq!(t.color, PieceColor::Cyan);
}

#[test]
fn j_o_l_s_z_shapes_and_colors() {
    let j = Tetromino::new_j();
    assert_eq!(j.shape, grid(&[&[1, 0, 0], &[1, 1, 1], &[0, 0, 0]]));
    assert_eq!(j.color, PieceColor::Blue);
    let o = Tetromino::new_o();
    assert_eq!(o.shape, grid(&[&[1, 1], &[1, 1]]));
    assert_eq!(o.color, PieceColor::Yellow);
    let l = Tetromino::new_l();
    assert_eq!(l.shape, grid(&[&[0, 0, 1], &[1, 1, 1], &[0, 0, 0]]));
    assert_eq!(l.color, PieceColor::DarkYellow);
    let s = Tetromino::new_s();
    assert_eq!(s.shape, grid(&[&[1, 1, 0], &[0, 1, 1], &[0, 0, 0]]));
    assert_eq!(s.color, PieceColor::Green);
    let z = Tetromino::new_z();
    assert_eq!(z.shape, grid(&[&[0, 1, 1], &[1, 1, 0], &[0, 0, 0]]));
    assert_eq!(z.color, PieceColor::Red);
}

#[test]
fn duplicate_copies_every_cell() {
    let t = Tetromino::new_s();
    let d = t.duplicate();
    assert_eq!(d.shape, t.shape);
    assert_eq!(d.color, t.color);
}

#[test]
fn rotate_t_clockwise() {
    let p = MovingTetromino { tetromino: Tetromino::new_t(), coords: (30, 2) };
    let r = rotate_right(&p);
    assert_eq!(r.coords, (30, 2));
    assert_eq!(r.tetromino.color, PieceColor::Magenta);
    assert_eq!(r.tetromino.shape, grid(&[&[0, 1, 0], &[0, 1, 1], &[0, 1, 0]]));
}

#[test]
fn rotate_i_turns_upright() {
    let p = MovingTetromino { tetromino: Tetromino::new_i(), coords: (5, 7) };
    let r = rotate_right(&p);
    assert_eq!(
        r.tetromino.shape,
        grid(&[&[0, 0, 1, 0], &[0, 0, 1, 0], &[0, 0, 1, 0], &[0, 0, 1, 0]])
    );
    assert_eq!(r.coords, (5, 7));
}

#[test]
fn four_rotations_give_back_the_shape() {
    for t in [
        Tetromino::new_i(),
        Tetromino::new_j(),
        Tetromino::new_l(),
        Tetromino::new_o(),
        Tetromino::new_s(),
        Tetromino::new_t(),
        Tetromino::new_z(),
    ] {
        let p = MovingTetromino { tetromino: t.clone(), coords: (1, 1) };
        let r = rotate_right(&rotate_right(&rotate_right(&rotate_right(&p))));
        assert_eq!(r.tetromino.shape, t.shape);
    }
}

#[test]
fn rotating_o_changes_nothing() {
    let p = MovingTetromino { tetromino: Tetromino::new_o(), coords: (0, 0) };
    let r = rotate_right(&p);
    assert_eq!(r.tetromino.shape, p.tetromino.shape);
}
