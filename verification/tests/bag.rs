use tetris::bag::{
    append_to_bag, bag_from_choices, copy_pieces, make_bag, prepend_bag, random_from_nanos,
    random_u32, take_next_piece, take_next_piece_with,
};
use tetris::piece::{PieceColor, Tetromino};

fn colors(v: &[Tetromino]) -> Vec<PieceColor> {
    v.iter().map(|t| t.color).collect()
}

fn standard(c: PieceColor) -> Tetromino {
    match c {
        PieceColor::Magenta => Tetromino::new_t(),
        PieceColor::Cyan => Tetromino::new_i(),
        PieceColor::Blue => Tetromino::new_j(),
        PieceColor::Yellow => Tetromino::new_o(),
        PieceColor::DarkYellow => Tetromino::new_l(),
        PieceColor::Green => Tetromino::new_s(),
        PieceColor::Red => Tetromino::new_z(),
    }
}

fn is_valid_bag(v: &[Tetromino]) -> bool {
    let cs = colors(v);
    v.len() == 6
        && v.iter().all(|t| t.shape == standard(t.color).shape)
        && (0..6).all(|i| (0..6).all(|j| i == j || cs[i] != cs[j]))
}

#[test]
fn random_from_nanos_is_remainder() {
    assert_eq!(random_from_nanos(17, 6), 5);
    assert_eq!(random_from_nanos(999_999_999, 7), 999_999_999 % 7);
    assert_eq!(random_from_nanos(0, 1), 0);
}

#[test]
fn random_u32_stays_below_end() {
    for end in 1..50u32 {
        assert!(random_u32(end).unwrap() < end);
    }
}

#[test]
fn bag_from_first_choices() {
    // Always take the first piece left: I, J, T, L, O, S; Z stays out.
    let bag = bag_from_choices(&vec![0, 0, 0, 0, 0, 0]);
    assert_eq!(
        colors(&bag),
        vec![
            PieceColor::Cyan,
            PieceColor::Blue,
            PieceColor::Magenta,
            PieceColor::DarkYellow,
            PieceColor::Yellow,
            PieceColor::Green
        ]
    );
}

#[test]
fn bag_from_last_choices() {
    // Always take the last piece left: Z, S, O, L, T, J; I stays out.
    let bag = bag_from_choices(&vec![6, 5, 4, 3, 2, 1]);
    assert_eq!(
        colors(&bag),
        vec![
            PieceColor::Red,
            PieceColor::Green,
            PieceColor::Yellow,
            PieceColor::DarkYellow,
            PieceColor::Magenta,
            PieceColor::Blue
        ]
    );
    assert!(is_valid_bag(&bag));
}

#[test]
fn bag_from_mixed_choices() {
    // I J T L O S Z: take 2 (T), then from I J L O S Z take 4 (S) ...
    let bag = bag_from_choices(&vec![2, 4, 0, 3, 1, 0]);
    assert_eq!(
        colors(&bag),
        vec![
            PieceColor::Magenta,
            PieceColor::Green,
            PieceColor::Cyan,
            PieceColor::Red,
            PieceColor::DarkYellow,
            PieceColor::Blue
        ]
    );
}

#[test]
fn make_bag_is_six_distinct_standard_pieces() {
    for _ in 0..20 {
        let bag = make_bag().unwrap();
        assert!(is_valid_bag(&bag));
        assert_ne!(bag[0].color, PieceColor::Red);
    }
}

#[test]
fn prepend_bag_reverses_new_in_front() {
    let bag = vec![Tetromino::new_o()];
    let new_bag = vec![Tetromino::new_i(), Tetromino::new_j(), Tetromino::new_t()];
    let r = prepend_bag(&bag, new_bag);
    assert_eq!(
        colors(&r),
        vec![PieceColor::Magenta, PieceColor::Blue, PieceColor::Cyan, PieceColor::Yellow]
    );
}

#[test]
fn append_to_bag_puts_six_in_front() {
    let bag = vec![Tetromino::new_o(), Tetromino::new_z()];
    let r = append_to_bag(&bag).unwrap();
    assert_eq!(r.len(), 8);
    assert_eq!(colors(&r[6..]), vec![PieceColor::Yellow, PieceColor::Red]);
    let mut front: Vec<Tetromino> = r[..6].to_vec();
    front.reverse();
    assert!(is_valid_bag(&front));
}

#[test]
fn copy_pieces_keeps_order() {
    let v = vec![Tetromino::new_s(), Tetromino::new_l()];
    assert_eq!(colors(&copy_pieces(&v)), colors(&v));
}

#[test]
fn take_next_from_long_bag() {
    let mut bag = bag_from_choices(&vec![0, 0, 0, 0, 0, 0]);
    let p = take_next_piece_with(&mut bag, Vec::new());
    assert_eq!(p.color, PieceColor::Green);
    assert_eq!(bag.len(), 5);
}

#[test]
fn take_next_from_bag_of_five_refills() {
    let mut bag = bag_from_choices(&vec![0, 0, 0, 0, 0, 0]);
    bag.remove(0);
    let fresh = bag_from_choices(&vec![6, 5, 4, 3, 2, 1]);
    let p = take_next_piece_with(&mut bag, fresh);
    assert_eq!(p.color, PieceColor::Green);
    assert_eq!(bag.len(), 10);
    assert_eq!(
        colors(&bag),
        vec![
            PieceColor::Blue,
            PieceColor::Magenta,
            PieceColor::DarkYellow,
            PieceColor::Yellow,
            PieceColor::Green,
            PieceColor::Red,
            PieceColor::Blue,
            PieceColor::Magenta,
            PieceColor::DarkYellow,
            PieceColor::Yellow
        ]
    );
}

#[test]
fn take_next_from_empty_bag_uses_fresh() {
    let mut bag: Vec<Tetromino> = Vec::new();
    let fresh = bag_from_choices(&vec![6, 5, 4, 3, 2, 1]);
    let p = take_next_piece_with(&mut bag, fresh);
    assert_eq!(p.color, PieceColor::Blue);
    assert_eq!(bag.len(), 5);
    assert_eq!(bag[0].color, PieceColor::Red);
}

#[test]
fn take_next_piece_keeps_bag_at_least_five() {
    let mut bag = make_bag().unwrap();
    for _ in 0..30 {
        let before: Vec<PieceColor> = colors(&bag);
        let p = take_next_piece(&mut bag).unwrap();
        assert_eq!(Some(&p.color), before.last());
        assert!(bag.len() >= 5);
        assert!(bag.iter().all(|t| t.shape == standard(t.color).shape));
    }
}
