use vstd::prelude::*;
use crate::piece::{
    PieceColor, Tetromino, MovingTetromino, block_at, sound_shape, standard_piece, rotated_grid,
    rotate_right, lemma_rotation_keeps_sound, lemma_standard_piece_sound, lemma_standard_piece_shape,
};
use crate::board::{
    Board, BOARDHEIGHT, BOARDWIDTH, BOARDX, BOARDY, PIECESTARTX, cells, empty_grid, empty_board,
    blocks_on_board, placed, placement_fits, valid_move, move_checkable, moved_x, moved_y, fits_on_field,
    can_fall, check_valid_board, place_piece_in_board, drop_piece, lemma_small_u16_as_i16, cleared, covers,
    clear_lines, clearable, lemma_full_bottom_rows,
};
use crate::screen::{CellLook, look_at, looks};
use crate::bag::{PieceView, pieces, valid_bag, next_from_bag, random_from_nanos, clock_nanos, make_bag, take_next_piece};
use std::time::SystemTimeError;

verus! {

/// A key press, as the game reads it.
#[derive(Clone, Copy, Debug, PartialEq, Eq, Structural)]
pub enum Key {
    /// `a`, `h` or the left arrow.
    Left,
    /// `d`, `l` or the right arrow.
    Right,
    /// `s`, `j` or the down arrow.
    Down,
    /// `w`, `k` or the up arrow: turn the piece clockwise.
    Rotate,
    /// `r` or `R`: reserved for restarting, does nothing.
    Reset,
    /// `c`: hold the current piece.
    Hold,
    /// End: lock a copy of the piece into the field and toggle debug mode.
    ToggleDebug,
    /// Space: drop the piece to the bottom.
    HardDrop,
    /// `q`, `Q` or Escape: leave the game.
    Quit,
}

/// What the screen has to do after a key press.
#[derive(Clone, Copy, Debug, PartialEq, Eq, Structural)]
pub enum Action {
    /// Carry on.
    Continue,
    /// Clear the whole screen (debug mode was switched off).
    ClearScreen,
    /// Restore the terminal and leave.
    Quit,
    /// The clock, read for a new bag, stands before the Unix epoch: the
    /// game cannot go on.
    ClockError,
}

/// The state of a game of Tetris.
pub struct Game {
    /// The playing field: locked blocks.
    board: Board,
    /// The falling piece.
    current_piece: MovingTetromino,
    /// Ticks since the piece last fell by gravity.
    ticks: i32,
    /// Ticks the piece has spent unable to fall.
    ticks_on_ground: i32,
    /// Whether the debug overlay is shown.
    debug_mode: bool,
    /// Whether the hold was already used for the current piece.
    has_held_piece: bool,
    /// The upcoming pieces; the next one is at the back.
    bag: Vec<Tetromino>,
    /// The held piece, if any.
    held_piece: Option<Tetromino>,
    /// The errors of the clock readings that failed, one per failure.
    clock_errors: Vec<SystemTimeError>,
}

/// The board is exactly the playing field: twenty rows of ten cells.
pub open spec fn field_board(cs: Seq<Seq<Option<PieceColor>>>) -> bool {
    &&& cs.len() == BOARDHEIGHT
    &&& forall|r: int| 0 <= r < cs.len() ==> #[trigger] cs[r].len() == BOARDWIDTH
}

/// Every block of a piece at `coords` lies on a cell of the field.
pub open spec fn in_field(cs: Seq<Seq<Option<PieceColor>>>, g: Seq<Seq<bool>>, coords: (u16, u16)) -> bool {
    blocks_on_board(cs, g, coords.0 as int, coords.1 as int, BOARDX as int, BOARDY as int)
}

/// The view of an optional piece.
pub open spec fn held_view(h: &Option<Tetromino>) -> Option<PieceView> {
    match h {
        Some(t) => Some(t@),
        None => None,
    }
}

/// Where new pieces appear.
pub open spec fn start_coords() -> (u16, u16) {
    (PIECESTARTX, 2)
}

/// The colours of the pieces a game may start with, in the order of its
/// line-up: I, J, L, O, S, T, Z.
pub open spec fn start_colors() -> Seq<PieceColor> {
    seq![
        PieceColor::Cyan,
        PieceColor::Blue,
        PieceColor::DarkYellow,
        PieceColor::Yellow,
        PieceColor::Green,
        PieceColor::Magenta,
        PieceColor::Red,
    ]
}

impl Game {
    /// The cells of the playing field.
    pub closed spec fn field(&self) -> Seq<Seq<Option<PieceColor>>> {
        cells(&self.board)
    }

    /// The falling piece's grid and colour.
    pub closed spec fn falling(&self) -> PieceView {
        self.current_piece.tetromino@
    }

    /// The screen position of the falling piece's top-left cell.
    pub closed spec fn position(&self) -> (u16, u16) {
        self.current_piece.coords
    }

    /// Ticks since the piece last fell by gravity.
    pub closed spec fn tick_count(&self) -> i32 {
        self.ticks
    }

    /// Ticks the piece has spent unable to fall.
    pub closed spec fn ground_ticks(&self) -> i32 {
        self.ticks_on_ground
    }

    /// Whether the debug overlay is shown.
    pub closed spec fn debug_on(&self) -> bool {
        self.debug_mode
    }

    /// Whether the hold was already used for the current piece.
    pub closed spec fn hold_used(&self) -> bool {
        self.has_held_piece
    }

    /// The upcoming pieces; the next one is at the back.
    pub closed spec fn upcoming(&self) -> Seq<PieceView> {
        pieces(&self.bag)
    }

    /// The held piece, if any.
    pub closed spec fn held(&self) -> Option<PieceView> {
        held_view(&self.held_piece)
    }

    /// How many clock readings have failed: each failure is kept with the
    /// error the clock gave, so it is counted only where the clock failed.
    pub closed spec fn clock_failures(&self) -> nat {
        self.clock_errors.len() as nat
    }

    /// The game's invariant: a field-sized board, a sound falling piece
    /// lying on the field, at least five standard pieces in the bag, a
    /// sound held piece, and tick counters within their ranges.
    pub open spec fn wf(&self) -> bool {
        let cs = self.field();
        let g = self.falling().0;
        &&& field_board(cs)
        &&& sound_shape(g)
        &&& in_field(cs, g, self.position())
        &&& self.upcoming().len() >= 5
        &&& forall|k: int|
            0 <= k < self.upcoming().len() ==> #[trigger] self.upcoming()[k] == standard_piece(
                self.upcoming()[k].1,
            )
        &&& (self.held() matches Some(h) ==> sound_shape(h.0))
        &&& 0 <= self.tick_count() < 10
        &&& 0 <= self.ground_ticks() <= 20
    }

    /// Everything but the falling piece is as in `o`.
    pub open spec fn same_but_piece(&self, o: &Game) -> bool {
        &&& self.field() == o.field()
        &&& self.tick_count() == o.tick_count()
        &&& self.ground_ticks() == o.ground_ticks()
        &&& self.debug_on() == o.debug_on()
        &&& self.hold_used() == o.hold_used()
        &&& self.upcoming() == o.upcoming()
        &&& self.held() == o.held()
    }

    /// The state is, in every view, that of `o`.
    pub open spec fn same_as(&self, o: &Game) -> bool {
        &&& self.same_but_piece(o)
        &&& self.falling() == o.falling()
        &&& self.position() == o.position()
    }

    /// The playing field.
    pub fn board(&self) -> (b: &Board)
        ensures
            cells(b) == self.field(),
    {
        &self.board
    }

    /// The falling piece.
    pub fn current_piece(&self) -> (p: &MovingTetromino)
        ensures
            p.tetromino@ == self.falling(),
            p.coords == self.position(),
    {
        &self.current_piece
    }

    /// Ticks since the piece last fell by gravity.
    pub fn ticks(&self) -> (t: i32)
        ensures
            t == self.tick_count(),
    {
        self.ticks
    }

    /// Ticks the piece has spent unable to fall.
    pub fn ticks_on_ground(&self) -> (t: i32)
        ensures
            t == self.ground_ticks(),
    {
        self.ticks_on_ground
    }

    /// Whether the debug overlay is shown.
    pub fn debug_mode(&self) -> (d: bool)
        ensures
            d == self.debug_on(),
    {
        self.debug_mode
    }

    /// Whether the hold was already used for the current piece.
    pub fn has_held_piece(&self) -> (h: bool)
        ensures
            h == self.hold_used(),
    {
        self.has_held_piece
    }

    /// The upcoming pieces; the next one is at the back.
    pub fn bag(&self) -> (b: &Vec<Tetromino>)
        ensures
            pieces(b) == self.upcoming(),
    {
        &self.bag
    }

    /// The held piece, if any.
    pub fn held_piece(&self) -> (h: &Option<Tetromino>)
        ensures
            held_view(h) == self.held(),
    {
        &self.held_piece
    }
}

/// A sound piece on the field stands left of the field's right edge and
/// above its bottom.
pub proof fn lemma_position_bounded(cs: Seq<Seq<Option<PieceColor>>>, g: Seq<Seq<bool>>, coords: (u16, u16))
    requires
        field_board(cs),
        sound_shape(g),
        in_field(cs, g, coords),
    ensures
        coords.0 < BOARDX + BOARDWIDTH,
        coords.1 < BOARDY + BOARDHEIGHT,
{
    let (i, j) = choose|i: int, j: int| #[trigger] block_at(g, i, j);
    assert(block_at(g, i, j));
}

/// A sound piece standing within the screen area of the field can be
/// checked for every move by at most one cell.
pub proof fn lemma_checkable_at(cs: Seq<Seq<Option<PieceColor>>>, g: Seq<Seq<bool>>, coords: (u16, u16), dx: i16, dy: i16)
    requires
        field_board(cs),
        sound_shape(g),
        coords.0 < BOARDX + BOARDWIDTH,
        coords.1 < BOARDY + BOARDHEIGHT,
        -1 <= dx <= 1,
        -1 <= dy <= 1,
    ensures
        move_checkable(cs, g, coords, dx, dy),
        moved_x(coords, dx) == coords.0 + dx,
        moved_y(coords, dy) == coords.1 + dy,
{
    lemma_small_u16_as_i16(coords.0);
    lemma_small_u16_as_i16(coords.1);
    assert(g[0].len() == g.len());
}

/// The field's size and a sound piece on it bound the piece's position, so
/// that every move by at most one cell can be checked.
pub proof fn lemma_checkable(cs: Seq<Seq<Option<PieceColor>>>, g: Seq<Seq<bool>>, coords: (u16, u16), dx: i16, dy: i16)
    requires
        field_board(cs),
        sound_shape(g),
        in_field(cs, g, coords),
        -1 <= dx <= 1,
        -1 <= dy <= 1,
    ensures
        move_checkable(cs, g, coords, dx, dy),
        coords.0 < BOARDX + BOARDWIDTH,
        coords.1 < BOARDY + BOARDHEIGHT,
        moved_x(coords, dx) == coords.0 + dx,
        moved_y(coords, dy) == coords.1 + dy,
{
    lemma_position_bounded(cs, g, coords);
    lemma_checkable_at(cs, g, coords, dx, dy);
}

/// A piece that may move somewhere lies on the field there.
pub proof fn lemma_valid_move_in_field(cs: Seq<Seq<Option<PieceColor>>>, g: Seq<Seq<bool>>, coords: (u16, u16), dx: i16, dy: i16)
    requires
        field_board(cs),
        valid_move(cs, g, coords, dx, dy),
    ensures
        in_field(cs, g, (moved_x(coords, dx) as u16, moved_y(coords, dy) as u16)),
{
    let x = moved_x(coords, dx);
    let y = moved_y(coords, dy);
    assert forall|i: int, j: int| #[trigger] block_at(g, i, j) implies {
        let r = (y as u16) + i - BOARDY;
        let c = (x as u16) + j - BOARDX;
        0 <= r < cs.len() && 0 <= c < cs[r].len()
    } by {
        assert(fits_on_field(cs, g, x, y));
    }
}

/// A piece at the start position lies on the field.
pub proof fn lemma_start_in_field(cs: Seq<Seq<Option<PieceColor>>>, g: Seq<Seq<bool>>)
    requires
        field_board(cs),
        sound_shape(g),
    ensures
        in_field(cs, g, start_coords()),
{
    assert forall|i: int, j: int| #[trigger] block_at(g, i, j) implies {
        let r = 2 + i - BOARDY;
        let c = PIECESTARTX + j - BOARDX;
        0 <= r < cs.len() && 0 <= c < cs[r].len()
    } by {
        assert(g[i].len() == g.len());
    }
}

/// Taking the next piece from a bag of at least five standard pieces
/// leaves at least five standard pieces and yields a standard one.
pub proof fn lemma_next_from_bag_keeps_standard(old: Seq<PieceView>, popped: PieceView, new: Seq<PieceView>)
    requires
        old.len() >= 5,
        forall|q: int| 0 <= q < old.len() ==> #[trigger] old[q] == standard_piece(old[q].1),
        next_from_bag(old, popped, new),
    ensures
        new.len() >= 5,
        forall|q: int| 0 <= q < new.len() ==> #[trigger] new[q] == standard_piece(new[q].1),
        popped == standard_piece(popped.1),
        sound_shape(popped.0),
{
    assert(old[old.len() - 1] == standard_piece(old[old.len() - 1].1));
    lemma_standard_piece_sound(popped.1);
    if old.len() <= 5 {
        let fresh = new.take(6).reverse();
        assert forall|q: int| 0 <= q < new.len() implies #[trigger] new[q] == standard_piece(new[q].1) by {
            if q < 6 {
                assert(new[q] == fresh[5 - q]);
            } else {
                assert(new[q] == new.skip(6)[q - 6]);
                assert(new.skip(6)[q - 6] == old[q - 6]);
            }
        }
    } else {
        assert forall|q: int| 0 <= q < new.len() implies #[trigger] new[q] == standard_piece(new[q].1) by {
            assert(new[q] == old[q]);
        }
    }
}

/// The falling piece moved by `(dx, dy)` where that move is valid and
/// stayed otherwise; nothing else changed.
pub open spec fn moved_by(o: &Game, n: &Game, dx: i16, dy: i16) -> bool {
    let cs = o.field();
    let g = o.falling().0;
    let (x, y) = o.position();
    &&& n.same_but_piece(o)
    &&& n.falling() == o.falling()
    &&& if valid_move(cs, g, (x, y), dx, dy) {
        n.position().0 == x + dx && n.position().1 == y + dy
    } else {
        n.position() == (x, y)
    }
}

/// The falling piece turned a quarter clockwise where the turned piece fits
/// where it stands, and stayed otherwise; nothing else changed.
pub open spec fn turned(o: &Game, n: &Game) -> bool {
    let cs = o.field();
    let g = o.falling().0;
    let r = rotated_grid(g);
    &&& n.same_but_piece(o)
    &&& n.position() == o.position()
    &&& n.falling().1 == o.falling().1
    &&& n.falling().0 == if valid_move(cs, r, o.position(), 0, 0) {
        r
    } else {
        g
    }
}

/// Holding: once per piece, the falling piece goes to the hold and the
/// held piece, or else the next piece of the bag, starts at the top.  When
/// the bag needs a new bag and the clock cannot be read, nothing changes
/// and the screen is told so.
pub open spec fn hold_effect(o: &Game, n: &Game, action: Action) -> bool {
    if o.hold_used() {
        n.same_as(o) && action == Action::Continue
    } else if action == Action::ClockError {
        &&& o.held() is None
        &&& o.upcoming().len() <= 5
        &&& n.same_as(o)
    } else {
        &&& action == Action::Continue
        &&& n.field() == o.field()
        &&& n.tick_count() == o.tick_count()
        &&& n.ground_ticks() == o.ground_ticks()
        &&& n.debug_on() == o.debug_on()
        &&& n.hold_used()
        &&& n.held() == Some(o.falling())
        &&& n.position() == start_coords()
        &&& match o.held() {
            Some(h) => n.falling() == h && n.upcoming() == o.upcoming(),
            None => next_from_bag(o.upcoming(), n.falling(), n.upcoming()),
        }
    }
}

/// The piece stood on row `y0` and ended on row `y1`: it could fall from
/// every row from `y0` up to `y1` and cannot fall from `y1`.
pub open spec fn landed(cs: Seq<Seq<Option<PieceColor>>>, g: Seq<Seq<bool>>, x: u16, y0: int, y1: int) -> bool {
    &&& y0 <= y1
    &&& forall|y: int| y0 <= y < y1 ==> #[trigger] can_fall(cs, g, x, y)
    &&& !can_fall(cs, g, x, y1)
}

/// What a key press does to the game and asks of the screen.
pub open spec fn key_effect(o: &Game, key: Key, n: &Game, action: Action) -> bool {
    let cs = o.field();
    let g = o.falling().0;
    let (x, y) = o.position();
    match key {
        Key::Left => moved_by(o, n, -1i16, 0) && action == Action::Continue,
        Key::Right => moved_by(o, n, 1, 0) && action == Action::Continue,
        Key::Down => moved_by(o, n, 0, 1) && action == Action::Continue,
        Key::Rotate => turned(o, n) && action == Action::Continue,
        Key::Reset => n.same_as(o) && action == Action::Continue,
        Key::Hold => hold_effect(o, n, action),
        Key::ToggleDebug => {
            &&& n.field() == placed(
                cs,
                g,
                o.falling().1,
                x as int,
                y as int,
                BOARDX as int,
                BOARDY as int,
            )
            &&& n.falling() == o.falling()
            &&& n.position() == o.position()
            &&& n.tick_count() == o.tick_count()
            &&& n.ground_ticks() == o.ground_ticks()
            &&& n.debug_on() == !o.debug_on()
            &&& n.hold_used() == o.hold_used()
            &&& n.upcoming() == o.upcoming()
            &&& n.held() == o.held()
            &&& action == if n.debug_on() {
                Action::Continue
            } else {
                Action::ClearScreen
            }
        },
        Key::HardDrop => {
            &&& n.field() == cs
            &&& n.falling() == o.falling()
            &&& n.position().0 == x
            &&& landed(cs, g, x, y as int, n.position().1 as int)
            &&& n.tick_count() == o.tick_count()
            &&& n.ground_ticks() == 20
            &&& n.debug_on() == o.debug_on()
            &&& n.hold_used() == o.hold_used()
            &&& n.upcoming() == o.upcoming()
            &&& n.held() == o.held()
            &&& action == Action::Continue
        },
        Key::Quit => n.same_as(o) && action == Action::Quit,
    }
}

impl Game {
    /// A new game on an empty field, starting with the piece at `first` in
    /// the line-up I, J, L, O, S, T, Z, with `bag` as the upcoming pieces.
    pub fn with_start(first: u32, bag: Vec<Tetromino>) -> (game: Game)
        requires
            first < 7,
            valid_bag(pieces(&bag)),
        ensures
            game.wf(),
            game.field() == empty_grid(BOARDHEIGHT as int, BOARDWIDTH as int),
            game.falling() == standard_piece(start_colors()[first as int]),
            game.position() == start_coords(),
            game.tick_count() == 0,
            game.ground_ticks() == 0,
            !game.debug_on(),
            !game.hold_used(),
            game.upcoming() == pieces(&bag),
            game.held() is None,
            game.clock_failures() == 0,
    {
        let board = empty_board(BOARDHEIGHT as usize, BOARDWIDTH as usize);
        let tetrominos = vec![
            Tetromino::new_i(),
            Tetromino::new_j(),
            Tetromino::new_l(),
            Tetromino::new_o(),
            Tetromino::new_s(),
            Tetromino::new_t(),
            Tetromino::new_z(),
        ];
        assert(tetrominos@[first as int]@ == standard_piece(start_colors()[first as int]));
        let current_piece = MovingTetromino {
            tetromino: tetrominos[first as usize].duplicate(),
            coords: (PIECESTARTX, 2),
        };
        let game = Game {
            board,
            current_piece,
            ticks: 0,
            ticks_on_ground: 0,
            debug_mode: false,
            has_held_piece: false,
            bag,
            held_piece: None,
            clock_errors: Vec::new(),
        };
        proof {
            lemma_standard_piece_sound(start_colors()[first as int]);
            lemma_start_in_field(game.field(), game.falling().0);
            assert forall|k: int| 0 <= k < game.upcoming().len() implies #[trigger] game.upcoming()[k]
                == standard_piece(game.upcoming()[k].1) by {
            }
        }
        game
    }

    /// A new game whose first piece the clock reading `nanos` picks among the
    /// first six of the line-up I, J, L, O, S, T, Z: the one at `nanos`
    /// modulo six.
    pub fn from_reading(nanos: u32, bag: Vec<Tetromino>) -> (game: Game)
        requires
            valid_bag(pieces(&bag)),
        ensures
            game.wf(),
            game.field() == empty_grid(BOARDHEIGHT as int, BOARDWIDTH as int),
            game.falling() == standard_piece(start_colors()[(nanos % 6) as int]),
            game.position() == start_coords(),
            game.tick_count() == 0,
            game.ground_ticks() == 0,
            !game.debug_on(),
            !game.hold_used(),
            game.upcoming() == pieces(&bag),
            game.held() is None,
            game.clock_failures() == 0,
    {
        let first = random_from_nanos(nanos, 6);
        Self::with_start(first, bag)
    }

    /// A new game: the first piece is picked by a reading of the clock among
    /// the first six of the line-up I, J, L, O, S, T, Z (never Z), as
    /// `from_reading` picks it, and the bag is a new bag; the clock's error
    /// when a reading fails.
    pub fn new() -> (game: Result<Game, SystemTimeError>)
        ensures
            game matches Ok(game) ==> {
                &&& game.wf()
                &&& game.field() == empty_grid(BOARDHEIGHT as int, BOARDWIDTH as int)
                &&& game.falling().1 != PieceColor::Red
                &&& game.falling() == standard_piece(game.falling().1)
                &&& exists|nanos: u32|
                    nanos < 1_000_000_000 && game.falling() == standard_piece(
                        start_colors()[#[trigger] (nanos % 6) as int],
                    )
                &&& game.position() == start_coords()
                &&& game.tick_count() == 0
                &&& game.ground_ticks() == 0
                &&& !game.debug_on()
                &&& !game.hold_used()
                &&& valid_bag(game.upcoming())
                &&& game.upcoming()[0].1 != PieceColor::Red
                &&& game.held() is None
                &&& game.clock_failures() == 0
            },
    {
        let nanos = match clock_nanos() {
            Ok(n) => n,
            Err(e) => return Err(e),
        };
        let bag = match make_bag() {
            Ok(b) => b,
            Err(e) => return Err(e),
        };
        let game = Self::from_reading(nanos, bag);
        proof {
            lemma_standard_piece_shape(start_colors()[(nanos % 6) as int]);
            assert(nanos < 1_000_000_000);
        }
        Ok(game)
    }

    /// Reacts to a key press: moves, turns, holds or drops the falling
    /// piece, toggles debug mode, or asks to quit.
    pub fn handle_key(&mut self, key: Key) -> (action: Action)
        requires
            old(self).wf(),
        ensures
            final(self).wf(),
            key_effect(old(self), key, final(self), action),
            action == Action::ClockError ==> final(self).clock_failures() == old(self).clock_failures() + 1,
            action != Action::ClockError ==> final(self).clock_failures() == old(self).clock_failures(),
    {
        let ghost cs = cells(&self.board);
        let ghost g = self.current_piece.tetromino@.0;
        let ghost pos = self.current_piece.coords;
        match key {
            Key::Left => {
                proof {
                    lemma_checkable(cs, g, pos, -1i16, 0);
                }
                if check_valid_board(&self.board, &self.current_piece, -1, 0) {
                    proof {
                        lemma_valid_move_in_field(cs, g, pos, -1i16, 0);
                    }
                    self.current_piece.coords.0 = self.current_piece.coords.0 - 1;
                }
                Action::Continue
            },
            Key::Right => {
                proof {
                    lemma_checkable(cs, g, pos, 1, 0);
                }
                if check_valid_board(&self.board, &self.current_piece, 1, 0) {
                    proof {
                        lemma_valid_move_in_field(cs, g, pos, 1, 0);
                    }
                    self.current_piece.coords.0 = self.current_piece.coords.0 + 1;
                }
                Action::Continue
            },
            Key::Down => {
                proof {
                    lemma_checkable(cs, g, pos, 0, 1);
                }
                if check_valid_board(&self.board, &self.current_piece, 0, 1) {
                    proof {
                        lemma_valid_move_in_field(cs, g, pos, 0, 1);
                    }
                    self.current_piece.coords.1 = self.current_piece.coords.1 + 1;
                }
                Action::Continue
            },
            Key::Rotate => {
                proof {
                    lemma_rotation_keeps_sound(g);
                    lemma_checkable(cs, g, pos, 0, 0);
                    lemma_checkable_at(cs, rotated_grid(g), pos, 0, 0);
                }
                if check_valid_board(&self.board, &rotate_right(&self.current_piece), 0, 0) {
                    proof {
                        lemma_valid_move_in_field(cs, rotated_grid(g), pos, 0, 0);
                    }
                    self.current_piece = rotate_right(&self.current_piece);
                }
                Action::Continue
            },
            Key::Reset => Action::Continue,
            Key::Hold => {
                if !self.has_held_piece {
                    let ghost old_bag = pieces(&self.bag);
                    match self.held_piece.take() {
                        Some(temp) => {
                            self.has_held_piece = true;
                            self.held_piece = Some(self.current_piece.tetromino.duplicate());
                            proof {
                                lemma_start_in_field(cs, temp@.0);
                            }
                            self.current_piece = MovingTetromino { tetromino: temp, coords: (PIECESTARTX, 2) };
                        },
                        None => {
                            let rand_mino = match take_next_piece(&mut self.bag) {
                                Ok(m) => m,
                                Err(e) => {
                                    self.clock_errors.push(e);
                                    return Action::ClockError;
                                },
                            };
                            self.has_held_piece = true;
                            self.held_piece = Some(self.current_piece.tetromino.duplicate());
                            proof {
                                lemma_next_from_bag_keeps_standard(old_bag, rand_mino@, pieces(&self.bag));
                                lemma_start_in_field(cs, rand_mino@.0);
                            }
                            self.current_piece = MovingTetromino { tetromino: rand_mino, coords: (PIECESTARTX, 2) };
                        },
                    }
                }
                Action::Continue
            },
            Key::ToggleDebug => {
                proof {
                    lemma_placeable(cs, g, pos);
                }
                self.board = place_piece_in_board(&self.board, &self.current_piece, BOARDX, BOARDY);
                proof {
                    lemma_placed_keeps_field(cs, g, self.current_piece.tetromino.color, pos);
                }
                self.debug_mode = !self.debug_mode;
                if !self.debug_mode {
                    Action::ClearScreen
                } else {
                    Action::Continue
                }
            },
            Key::HardDrop => {
                self.ticks_on_ground = 20;
                proof {
                    lemma_checkable(cs, g, pos, 0, 1);
                }
                drop_piece(&self.board, &mut self.current_piece);
                proof {
                    let y1 = self.current_piece.coords.1 as int;
                    if y1 > pos.1 {
                        assert(can_fall(cs, g, pos.0, y1 - 1));
                        lemma_checkable(cs, g, pos, 0, 0);
                        lemma_small_u16_as_i16((y1 - 1) as u16);
                        lemma_valid_move_in_field(cs, g, (pos.0, (y1 - 1) as u16), 0, 1);
                    }
                }
                Action::Continue
            },
            Key::Quit => Action::Quit,
        }
    }
}

/// A piece on the field can be placed on it.
pub proof fn lemma_placeable(cs: Seq<Seq<Option<PieceColor>>>, g: Seq<Seq<bool>>, coords: (u16, u16))
    requires
        field_board(cs),
        sound_shape(g),
        in_field(cs, g, coords),
    ensures
        placement_fits(cs, g, coords.0 as int, coords.1 as int, BOARDX as int, BOARDY as int),
{
    lemma_checkable(cs, g, coords, 0, 0);
}

/// Placing a piece keeps the field's size.
pub proof fn lemma_placed_keeps_field(cs: Seq<Seq<Option<PieceColor>>>, g: Seq<Seq<bool>>, color: PieceColor, coords: (u16, u16))
    requires
        field_board(cs),
    ensures
        field_board(placed(cs, g, color, coords.0 as int, coords.1 as int, BOARDX as int, BOARDY as int)),
{
}

/// What one tick does.  The tick counter advances; every tenth tick the
/// piece falls a row where it can.  A piece that then cannot fall spends
/// another tick on the ground; after twenty such ticks it is locked into
/// the field, the full bottom rows are cleared, the next piece of the bag
/// starts at the top, and the hold becomes available again.  When that
/// piece needs a new bag and the clock cannot be read, the tick reports
/// failure and leaves the game as it was.
pub open spec fn tick_effect(o: &Game, n: &Game, ok: bool) -> bool {
    let cs = o.field();
    let g = o.falling().0;
    let (x, y0) = o.position();
    let t1 = o.tick_count() + 1;
    let y1: int = if t1 >= 10 && can_fall(cs, g, x, y0 as int) {
        y0 + 1
    } else {
        y0 as int
    };
    let tog1 = if !can_fall(cs, g, x, y1) {
        o.ground_ticks() + 1
    } else {
        o.ground_ticks() as int
    };
    &&& !ok ==> tog1 >= 20 && o.upcoming().len() <= 5 && n.same_as(o)
    &&& ok ==> n.tick_count() == if t1 >= 10 {
        0
    } else {
        t1
    }
    &&& ok ==> n.debug_on() == o.debug_on()
    &&& ok ==> n.held() == o.held()
    &&& ok ==> if tog1 >= 20 {
        &&& n.field() == cleared(
            placed(cs, g, o.falling().1, x as int, y1, BOARDX as int, BOARDY as int),
        )
        &&& next_from_bag(o.upcoming(), n.falling(), n.upcoming())
        &&& n.position() == start_coords()
        &&& n.ground_ticks() == 0
        &&& !n.hold_used()
    } else {
        &&& n.field() == cs
        &&& n.upcoming() == o.upcoming()
        &&& n.falling() == o.falling()
        &&& n.position().0 == x
        &&& n.position().1 == y1
        &&& n.ground_ticks() == tog1
        &&& n.hold_used() == o.hold_used()
    }
}

/// Clearing a full field keeps it the size of the field.
pub proof fn lemma_cleared_keeps_field(cs: Seq<Seq<Option<PieceColor>>>)
    requires
        field_board(cs),
    ensures
        clearable(cs),
        field_board(cleared(cs)),
{
    lemma_full_bottom_rows(cs);
}

impl Game {
    /// Advances the game by one tick: gravity, time on the ground, and
    /// locking the piece once it has rested long enough.
    pub fn advance_tick(&mut self) -> (ok: bool)
        requires
            old(self).wf(),
        ensures
            final(self).wf(),
            tick_effect(old(self), final(self), ok),
            !ok ==> final(self).clock_failures() == old(self).clock_failures() + 1,
            ok ==> final(self).clock_failures() == old(self).clock_failures(),
    {
        let old_ticks = self.ticks;
        let old_row = self.current_piece.coords.1;
        let old_ground = self.ticks_on_ground;
        let ghost cs = cells(&self.board);
        let ghost g = self.current_piece.tetromino@.0;
        let ghost pos = self.current_piece.coords;
        self.ticks = self.ticks + 1;
        if self.ticks >= 10 {
            self.ticks = 0;
            proof {
                lemma_checkable(cs, g, pos, 0, 1);
            }
            if check_valid_board(&self.board, &self.current_piece, 0, 1) {
                proof {
                    lemma_valid_move_in_field(cs, g, pos, 0, 1);
                }
                self.current_piece.coords.1 = self.current_piece.coords.1 + 1;
            }
        }
        let ghost pos1 = self.current_piece.coords;
        proof {
            lemma_checkable(cs, g, pos1, 0, 1);
        }
        if !check_valid_board(&self.board, &self.current_piece, 0, 1) {
            self.ticks_on_ground = self.ticks_on_ground + 1;
        }
        if self.ticks_on_ground >= 20 {
            let ghost old_bag = pieces(&self.bag);
            let rand_mino = match take_next_piece(&mut self.bag) {
                Ok(m) => m,
                Err(e) => {
                    self.clock_errors.push(e);
                    self.ticks = old_ticks;
                    self.current_piece.coords.1 = old_row;
                    self.ticks_on_ground = old_ground;
                    return false;
                },
            };
            proof {
                lemma_next_from_bag_keeps_standard(old_bag, rand_mino@, pieces(&self.bag));
                lemma_placeable(cs, g, pos1);
            }
            let with_piece = place_piece_in_board(&self.board, &self.current_piece, BOARDX, BOARDY);
            proof {
                lemma_placed_keeps_field(cs, g, self.current_piece.tetromino.color, pos1);
                lemma_cleared_keeps_field(cells(&with_piece));
            }
            self.board = clear_lines(with_piece);
            proof {
                lemma_start_in_field(cells(&self.board), rand_mino@.0);
            }
            self.current_piece = MovingTetromino { tetromino: rand_mino, coords: (PIECESTARTX, 2) };
            self.ticks_on_ground = 0;
            self.has_held_piece = false;
        }
        true
    }
}

/// The landing row is unique: a piece dropped from one row lands on one
/// row only, so the shadow shows where a hard drop puts the piece.
pub proof fn lemma_landed_unique(cs: Seq<Seq<Option<PieceColor>>>, g: Seq<Seq<bool>>, x: u16, y0: int, y1: int, y2: int)
    requires
        landed(cs, g, x, y0, y1),
        landed(cs, g, x, y0, y2),
    ensures
        y1 == y2,
{
    if y1 < y2 {
        assert(can_fall(cs, g, x, y1));
    } else if y2 < y1 {
        assert(can_fall(cs, g, x, y2));
    }
}

impl Game {
    /// The row the falling piece would land on if dropped straight down.
    pub fn ghost_row(&self) -> (y: u16)
        requires
            self.wf(),
        ensures
            landed(self.field(), self.falling().0, self.position().0, self.position().1 as int, y as int),
            in_field(self.field(), self.falling().0, (self.position().0, y)),
    {
        let ghost cs = cells(&self.board);
        let ghost g = self.current_piece.tetromino@.0;
        let ghost pos = self.current_piece.coords;
        let mut ghost_piece = self.current_piece.duplicate();
        proof {
            lemma_checkable(cs, g, pos, 0, 1);
        }
        drop_piece(&self.board, &mut ghost_piece);
        proof {
            let y1 = ghost_piece.coords.1 as int;
            if y1 > pos.1 {
                assert(can_fall(cs, g, pos.0, y1 - 1));
                lemma_small_u16_as_i16((y1 - 1) as u16);
                lemma_valid_move_in_field(cs, g, (pos.0, (y1 - 1) as u16), 0, 1);
            }
        }
        ghost_piece.coords.1
    }

    /// The looks of the playing field's cells, with the falling piece and
    /// its shadow at row `ghost_y`.
    pub fn field_view(&self, ghost_y: u16) -> (v: Vec<Vec<CellLook>>)
        requires
            self.wf(),
            in_field(self.field(), self.falling().0, (self.position().0, ghost_y)),
        ensures
            looks(&v).len() == BOARDHEIGHT,
            forall|r: int| 0 <= r < BOARDHEIGHT ==> #[trigger] looks(&v)[r].len() == BOARDWIDTH,
            forall|r: int, c: int|
                0 <= r < BOARDHEIGHT && 0 <= c < BOARDWIDTH ==> #[trigger] looks(&v)[r][c] == look_at(
                    self.field(),
                    self.falling().0,
                    self.falling().1,
                    self.position(),
                    ghost_y,
                    r,
                    c,
                ),
            forall|r: int, c: int|
                0 <= r < BOARDHEIGHT && 0 <= c < BOARDWIDTH && covers(
                    self.falling().0,
                    self.position().0 as int,
                    self.position().1 as int,
                    BOARDX as int,
                    BOARDY as int,
                    r,
                    c,
                ) ==> #[trigger] looks(&v)[r][c] == CellLook::Falling(self.falling().1),
            forall|r: int, c: int|
                0 <= r < BOARDHEIGHT && 0 <= c < BOARDWIDTH && !covers(
                    self.falling().0,
                    self.position().0 as int,
                    self.position().1 as int,
                    BOARDX as int,
                    BOARDY as int,
                    r,
                    c,
                ) && self.field()[r][c] is Some ==> #[trigger] looks(&v)[r][c] == CellLook::Locked(
                    self.field()[r][c]->0,
                ),
            forall|r: int, c: int|
                0 <= r < BOARDHEIGHT && 0 <= c < BOARDWIDTH ==> (#[trigger] looks(&v)[r][c] == CellLook::Shadow
                    <==> !covers(
                    self.falling().0,
                    self.position().0 as int,
                    self.position().1 as int,
                    BOARDX as int,
                    BOARDY as int,
                    r,
                    c,
                ) && self.field()[r][c] is None && covers(
                    self.falling().0,
                    self.position().0 as int,
                    ghost_y as int,
                    BOARDX as int,
                    BOARDY as int,
                    r,
                    c,
                )),
            forall|r: int, c: int|
                0 <= r < BOARDHEIGHT && 0 <= c < BOARDWIDTH ==> (#[trigger] looks(&v)[r][c] == CellLook::Empty
                    <==> !covers(
                    self.falling().0,
                    self.position().0 as int,
                    self.position().1 as int,
                    BOARDX as int,
                    BOARDY as int,
                    r,
                    c,
                ) && self.field()[r][c] is None && !covers(
                    self.falling().0,
                    self.position().0 as int,
                    ghost_y as int,
                    BOARDX as int,
                    BOARDY as int,
                    r,
                    c,
                )),
    {
        let ghost cs = cells(&self.board);
        let ghost g = self.current_piece.tetromino@.0;
        let ghost color = self.current_piece.tetromino.color;
        let ghost pos = self.current_piece.coords;
        let field = empty_board(BOARDHEIGHT as usize, BOARDWIDTH as usize);
        let ghost ecs = cells(&field);
        proof {
            lemma_checkable(cs, g, pos, 0, 0);
            lemma_checkable(cs, g, (pos.0, ghost_y), 0, 0);
        }
        let board_with_piece = place_piece_in_board(&field, &self.current_piece, BOARDX, BOARDY);
        let ghost_piece = MovingTetromino {
            tetromino: self.current_piece.tetromino.duplicate(),
            coords: (self.current_piece.coords.0, ghost_y),
        };
        let ghost_board = place_piece_in_board(&field, &ghost_piece, BOARDX, BOARDY);
        let ghost pw = cells(&board_with_piece);
        let ghost gw = cells(&ghost_board);
        assert(board_with_piece.len() == pw.len());
        assert(self.board.len() == cs.len());
        assert(ghost_board.len() == gw.len());
        let mut v: Vec<Vec<CellLook>> = Vec::new();
        for r in 0..(BOARDHEIGHT as usize)
            invariant
                cs == cells(&self.board),
                field_board(cs),
                g == self.current_piece.tetromino@.0,
                color == self.current_piece.tetromino.color,
                pos == self.current_piece.coords,
                ecs == empty_grid(BOARDHEIGHT as int, BOARDWIDTH as int),
                pw == cells(&board_with_piece),
                gw == cells(&ghost_board),
                pw == placed(ecs, g, color, pos.0 as int, pos.1 as int, BOARDX as int, BOARDY as int),
                gw == placed(ecs, g, color, pos.0 as int, ghost_y as int, BOARDX as int, BOARDY as int),
                board_with_piece.len() == BOARDHEIGHT,
                ghost_board.len() == BOARDHEIGHT,
                self.board.len() == BOARDHEIGHT,
                v.len() == r,
                forall|k: int| 0 <= k < r ==> #[trigger] v@[k]@.len() == BOARDWIDTH,
                forall|k: int, c: int|
                    0 <= k < r && 0 <= c < BOARDWIDTH ==> #[trigger] v@[k]@[c] == look_at(cs, g, color, pos, ghost_y, k, c),
        {
            assert(pw[r as int] == board_with_piece@[r as int]@);
            assert(gw[r as int] == ghost_board@[r as int]@);
            assert(cs[r as int] == self.board@[r as int]@);
            let mut row: Vec<CellLook> = Vec::new();
            for c in 0..(BOARDWIDTH as usize)
                invariant
                    cs == cells(&self.board),
                    field_board(cs),
                    pw == placed(ecs, g, color, pos.0 as int, pos.1 as int, BOARDX as int, BOARDY as int),
                    gw == placed(ecs, g, color, pos.0 as int, ghost_y as int, BOARDX as int, BOARDY as int),
                    ecs == empty_grid(BOARDHEIGHT as int, BOARDWIDTH as int),
                    r < BOARDHEIGHT,
                    g == self.current_piece.tetromino@.0,
                    color == self.current_piece.tetromino.color,
                    pos == self.current_piece.coords,
                    board_with_piece.len() == BOARDHEIGHT,
                    ghost_board.len() == BOARDHEIGHT,
                    self.board.len() == BOARDHEIGHT,
                    pw[r as int] == board_with_piece@[r as int]@,
                    gw[r as int] == ghost_board@[r as int]@,
                    cs[r as int] == self.board@[r as int]@,
                    row.len() == c,
                    forall|q: int| 0 <= q < c ==> #[trigger] row@[q] == look_at(cs, g, color, pos, ghost_y, r as int, q),
            {
                let look = if board_with_piece[r][c].is_some() {
                    CellLook::Falling(self.current_piece.tetromino.color)
                } else if self.board[r][c].is_some() {
                    CellLook::Locked(self.board[r][c].unwrap())
                } else if ghost_board[r][c].is_some() {
                    CellLook::Shadow
                } else {
                    CellLook::Empty
                };
                proof {
                    assert(cs[r as int][c as int] == self.board@[r as int]@[c as int]);
                    assert(pw[r as int][c as int] == board_with_piece@[r as int]@[c as int]);
                    assert(gw[r as int][c as int] == ghost_board@[r as int]@[c as int]);
                }
                row.push(look);
            }
            v.push(row);
        }
        assert forall|r: int| 0 <= r < BOARDHEIGHT implies #[trigger] looks(&v)[r].len() == BOARDWIDTH by {
            assert(looks(&v)[r] == v@[r]@);
        }
        assert forall|r: int, c: int| 0 <= r < BOARDHEIGHT && 0 <= c < BOARDWIDTH implies #[trigger] looks(
            &v,
        )[r][c] == look_at(cs, g, color, pos, ghost_y, r, c) by {
            assert(looks(&v)[r] == v@[r]@);
        }
        v
    }
}

} // verus!
