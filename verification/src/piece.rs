use vstd::prelude::*;

verus! {

/// The colour in which a tetromino is drawn.  Each of the seven standard
/// tetrominoes has a colour of its own.
#[derive(Clone, Copy, Debug, PartialEq, Eq, Structural)]
pub enum PieceColor {
    Magenta,
    Cyan,
    Blue,
    Yellow,
    DarkYellow,
    Green,
    Red,
}

/// A tetromino: a square grid of cells (`true` where the piece has a
/// block) and its colour.
#[derive(Clone, Debug)]
pub struct Tetromino {
    pub shape: Vec<Vec<bool>>,
    pub color: PieceColor,
}

/// The mathematical grid of a shape, row by row.
pub open spec fn grid_view(shape: &Vec<Vec<bool>>) -> Seq<Seq<bool>> {
    shape@.map_values(|row: Vec<bool>| row@)
}

impl View for Tetromino {
    type V = (Seq<Seq<bool>>, PieceColor);

    open spec fn view(&self) -> (Seq<Seq<bool>>, PieceColor) {
        (grid_view(&self.shape), self.color)
    }
}

/// The shape's cell `(i, j)` holds a block; `j` is bounded by the width of
/// the first row, as the code that reads the shape bounds it.
pub open spec fn block_at(g: Seq<Seq<bool>>, i: int, j: int) -> bool {
    0 <= i < g.len() && 0 <= j < g[0].len() && g[i][j]
}

/// The grid has at least one block.
pub open spec fn has_block(g: Seq<Seq<bool>>) -> bool {
    exists|i: int, j: int| #[trigger] block_at(g, i, j)
}

/// Every row of `g` is exactly as long as `g` has rows.
pub open spec fn is_square(g: Seq<Seq<bool>>) -> bool {
    forall|i: int| 0 <= i < g.len() ==> #[trigger] g[i].len() == g.len()
}

/// The shape built from a matrix of digits: a square of side `m.len()`,
/// where a cell holds a block when its column lies within the width of the
/// first row and the digit there is `1`.
pub open spec fn digits_to_grid(m: Seq<Seq<u8>>) -> Seq<Seq<bool>> {
    Seq::new(
        m.len(),
        |y: int| Seq::new(m.len(), |x: int| x < m[0].len() && m[y][x] == 1u8),
    )
}

pub open spec fn digits_view(m: &Vec<Vec<u8>>) -> Seq<Seq<u8>> {
    m@.map_values(|row: Vec<u8>| row@)
}

pub open spec fn t_grid() -> Seq<Seq<bool>> {
    seq![seq![false, true, false], seq![true, true, true], seq![false, false, false]]
}

pub open spec fn i_grid() -> Seq<Seq<bool>> {
    seq![
        seq![false, false, false, false],
        seq![true, true, true, true],
        seq![false, false, false, false],
        seq![false, false, false, false],
    ]
}

pub open spec fn j_grid() -> Seq<Seq<bool>> {
    seq![seq![true, false, false], seq![true, true, true], seq![false, false, false]]
}

pub open spec fn o_grid() -> Seq<Seq<bool>> {
    seq![seq![true, true], seq![true, true]]
}

pub open spec fn l_grid() -> Seq<Seq<bool>> {
    seq![seq![false, false, true], seq![true, true, true], seq![false, false, false]]
}

pub open spec fn s_grid() -> Seq<Seq<bool>> {
    seq![seq![true, true, false], seq![false, true, true], seq![false, false, false]]
}

pub open spec fn z_grid() -> Seq<Seq<bool>> {
    seq![seq![false, true, true], seq![true, true, false], seq![false, false, false]]
}

/// The standard tetromino of a colour, in its spawn orientation.
pub open spec fn standard_piece(c: PieceColor) -> (Seq<Seq<bool>>, PieceColor) {
    match c {
        PieceColor::Magenta => (t_grid(), c),
        PieceColor::Cyan => (i_grid(), c),
        PieceColor::Blue => (j_grid(), c),
        PieceColor::Yellow => (o_grid(), c),
        PieceColor::DarkYellow => (l_grid(), c),
        PieceColor::Green => (s_grid(), c),
        PieceColor::Red => (z_grid(), c),
    }
}

impl Tetromino {
    /// Builds a tetromino from a matrix of digits, `1` marking a block.
    fn from_vector(vec: Vec<Vec<u8>>, color: PieceColor) -> (t: Tetromino)
        requires
            vec.len() >= 1,
            vec[0].len() <= vec.len(),
            forall|y: int| 0 <= y < vec.len() ==> #[trigger] vec[y].len() >= vec[0].len(),
        ensures
            t@ == (digits_to_grid(digits_view(&vec)), color),
    {
        let height = vec.len();
        let width = vec[0].len();
        let mut shape: Vec<Vec<bool>> = Vec::new();
        for y in 0..height
            invariant
                height == vec.len(),
                width == vec[0].len(),
                width <= height,
                forall|r: int| 0 <= r < vec.len() ==> #[trigger] vec[r].len() >= vec[0].len(),
                shape.len() == y,
                forall|r: int|
                    0 <= r < y ==> #[trigger] shape@[r]@ == digits_to_grid(digits_view(&vec))[r],
        {
            let mut row: Vec<bool> = Vec::new();
            for x in 0..height
                invariant
                    height == vec.len(),
                    width == vec[0].len(),
                    y < height,
                    vec[y as int].len() >= width,
                    row.len() == x,
                    forall|c: int|
                        0 <= c < x ==> #[trigger] row@[c] == (c < width && vec[y as int][c]
                            == 1u8),
            {
                row.push(x < width && vec[y][x] == 1);
            }
            proof {
                let g = digits_to_grid(digits_view(&vec));
                assert(row@ =~= g[y as int]);
            }
            shape.push(row);
        }
        let t = Tetromino { shape, color };
        assert(grid_view(&t.shape) =~= digits_to_grid(digits_view(&vec)));
        t
    }

    /// The T piece (magenta).
    pub fn new_t() -> (t: Tetromino)
        ensures
            t@ == standard_piece(PieceColor::Magenta),
    {
        let v = vec![vec![0u8, 1, 0], vec![1u8, 1, 1], vec![0u8, 0, 0]];
        let t = Self::from_vector(v, PieceColor::Magenta);
        assert(t@.0 =~~= t_grid());
        t
    }

    /// The I piece (cyan).
    pub fn new_i() -> (t: Tetromino)
        ensures
            t@ == standard_piece(PieceColor::Cyan),
    {
        let v = vec![
            vec![0u8, 0, 0, 0],
            vec![1u8, 1, 1, 1],
            vec![0u8, 0, 0, 0],
            vec![0u8, 0, 0, 0],
        ];
        let t = Self::from_vector(v, PieceColor::Cyan);
        assert(t@.0 =~~= i_grid());
        t
    }

    /// The J piece (blue).
    pub fn new_j() -> (t: Tetromino)
        ensures
            t@ == standard_piece(PieceColor::Blue),
    {
        let v = vec![vec![1u8, 0, 0], vec![1u8, 1, 1], vec![0u8, 0, 0]];
        let t = Self::from_vector(v, PieceColor::Blue);
        assert(t@.0 =~~= j_grid());
        t
    }

    /// The O piece (yellow).
    pub fn new_o() -> (t: Tetromino)
        ensures
            t@ == standard_piece(PieceColor::Yellow),
    {
        let v = vec![vec![1u8, 1], vec![1u8, 1]];
        let t = Self::from_vector(v, PieceColor::Yellow);
        assert(t@.0 =~~= o_grid());
        t
    }

    /// The L piece (dark yellow, drawn as orange).
    pub fn new_l() -> (t: Tetromino)
        ensures
            t@ == standard_piece(PieceColor::DarkYellow),
    {
        let v = vec![vec![0u8, 0, 1], vec![1u8, 1, 1], vec![0u8, 0, 0]];
        let t = Self::from_vector(v, PieceColor::DarkYellow);
        assert(t@.0 =~~= l_grid());
        t
    }

    /// The S piece (green).
    pub fn new_s() -> (t: Tetromino)
        ensures
            t@ == standard_piece(PieceColor::Green),
    {
        let v = vec![vec![1u8, 1, 0], vec![0u8, 1, 1], vec![0u8, 0, 0]];
        let t = Self::from_vector(v, PieceColor::Green);
        assert(t@.0 =~~= s_grid());
        t
    }

    /// The Z piece (red).
    pub fn new_z() -> (t: Tetromino)
        ensures
            t@ == standard_piece(PieceColor::Red),
    {
        let v = vec![vec![0u8, 1, 1], vec![1u8, 1, 0], vec![0u8, 0, 0]];
        let t = Self::from_vector(v, PieceColor::Red);
        assert(t@.0 =~~= z_grid());
        t
    }

    /// A copy of this tetromino, cell for cell.
    pub fn duplicate(&self) -> (r: Tetromino)
        ensures
            r@ == self@,
    {
        let mut shape: Vec<Vec<bool>> = Vec::new();
        let n = self.shape.len();
        for y in 0..n
            invariant
                n == self.shape.len(),
                shape.len() == y,
                forall|r: int| 0 <= r < y ==> #[trigger] shape@[r]@ == self.shape@[r]@,
        {
            let src = &self.shape[y];
            let mut row: Vec<bool> = Vec::new();
            for x in 0..src.len()
                invariant
                    row.len() == x,
                    forall|c: int| 0 <= c < x ==> #[trigger] row@[c] == src@[c],
            {
                row.push(src[x]);
            }
            assert(row@ =~= src@);
            shape.push(row);
        }
        let r = Tetromino { shape, color: self.color };
        assert(grid_view(&r.shape) =~= grid_view(&self.shape));
        r
    }
}

/// A tetromino placed on the screen: `coords` holds the column and the row
/// of the top-left cell of its grid.
#[derive(Debug)]
pub struct MovingTetromino {
    pub tetromino: Tetromino,
    pub coords: (u16, u16),
}

impl MovingTetromino {
    /// A copy of this moving piece, at the same place.
    pub fn duplicate(&self) -> (r: MovingTetromino)
        ensures
            r.tetromino@ == self.tetromino@,
            r.coords == self.coords,
    {
        MovingTetromino { tetromino: self.tetromino.duplicate(), coords: self.coords }
    }
}

/// Every row is at least as long as the grid has rows: what a right
/// rotation reads.
pub open spec fn rows_cover_side(g: Seq<Seq<bool>>) -> bool {
    forall|i: int| 0 <= i < g.len() ==> #[trigger] g[i].len() >= g.len()
}

/// The grid turned a quarter clockwise: row `i` of the result is column `i`
/// of `g`, read from the bottom up.
pub open spec fn rotated_grid(g: Seq<Seq<bool>>) -> Seq<Seq<bool>> {
    Seq::new(g.len(), |i: int| Seq::new(g.len(), |k: int| g[g.len() - 1 - k][i]))
}

/// Turns a piece a quarter clockwise about its grid; its place and colour
/// stay.
pub fn rotate_right(piece: &MovingTetromino) -> (r: MovingTetromino)
    requires
        rows_cover_side(piece.tetromino@.0),
    ensures
        r.coords == piece.coords,
        r.tetromino.color == piece.tetromino.color,
        r.tetromino@.0 == rotated_grid(piece.tetromino@.0),
{
    let shape = &piece.tetromino.shape;
    let ghost g = piece.tetromino@.0;
    let side: usize = shape.len();
    let mut rows: Vec<Vec<bool>> = Vec::new();
    for i in 0..side
        invariant
            side == shape.len(),
            g == grid_view(shape),
            rows_cover_side(g),
            rows.len() == i,
            forall|r: int| 0 <= r < i ==> #[trigger] rows@[r]@ == rotated_grid(g)[r],
    {
        let mut row: Vec<bool> = Vec::new();
        let mut j: usize = side;
        while j > 0
            invariant
                side == shape.len(),
                g == grid_view(shape),
                rows_cover_side(g),
                i < side,
                j <= side,
                row.len() == side - j,
                forall|k: int| 0 <= k < side - j ==> #[trigger] row@[k] == g[side - 1 - k][i as int],
            decreases j,
        {
            j = j - 1;
            assert(g[j as int].len() >= side);
            row.push(shape[j][i]);
        }
        assert(row@ =~= rotated_grid(g)[i as int]);
        rows.push(row);
    }
    let r = MovingTetromino {
        tetromino: Tetromino { shape: rows, color: piece.tetromino.color },
        coords: piece.coords,
    };
    assert(grid_view(&r.tetromino.shape) =~= rotated_grid(g));
    r
}

/// Turning a square grid a quarter clockwise keeps it square.
pub proof fn lemma_rotation_keeps_square(g: Seq<Seq<bool>>)
    requires
        is_square(g),
    ensures
        is_square(rotated_grid(g)),
        rows_cover_side(rotated_grid(g)),
        rotated_grid(g).len() == g.len(),
{
}

/// Four quarter turns bring a square grid back to where it started.
pub proof fn lemma_four_rotations_identity(g: Seq<Seq<bool>>)
    requires
        is_square(g),
    ensures
        rotated_grid(rotated_grid(rotated_grid(rotated_grid(g)))) == g,
{
    let r1 = rotated_grid(g);
    let r2 = rotated_grid(r1);
    let r3 = rotated_grid(r2);
    let r4 = rotated_grid(r3);
    let n = g.len();
    assert forall|i: int, k: int| 0 <= i < n && 0 <= k < n implies #[trigger] r2[i][k] == g[n - 1
        - i][n - 1 - k] by {
        assert(r1[n - 1 - k][i] == g[n - 1 - i][n - 1 - k]);
    }
    assert forall|i: int| 0 <= i < n implies #[trigger] r4[i] =~= g[i] by {
        assert forall|k: int| 0 <= k < n implies r4[i][k] == g[i][k] by {
            assert(r3[n - 1 - k][i] == r2[n - 1 - i][n - 1 - k]);
        }
    }
    assert(r4 =~= g);
}

/// Each standard piece is a square grid, of side two to four, with a block.
pub proof fn lemma_standard_piece_shape(c: PieceColor)
    ensures
        is_square(standard_piece(c).0),
        2 <= standard_piece(c).0.len() <= 4,
        has_block(standard_piece(c).0),
        standard_piece(c).1 == c,
{
    let g = standard_piece(c).0;
    assert(block_at(g, 1, 1));
}

/// A shape the game can hold: a square of side two to four with a block.
pub open spec fn sound_shape(g: Seq<Seq<bool>>) -> bool {
    &&& is_square(g)
    &&& 2 <= g.len() <= 4
    &&& has_block(g)
}

/// A quarter turn keeps a sound shape sound.
pub proof fn lemma_rotation_keeps_sound(g: Seq<Seq<bool>>)
    requires
        sound_shape(g),
    ensures
        sound_shape(rotated_grid(g)),
        rows_cover_side(g),
{
    lemma_rotation_keeps_square(g);
    let n = g.len();
    let (i, j) = choose|i: int, j: int| #[trigger] block_at(g, i, j);
    let r = rotated_grid(g);
    assert(r[j][n - 1 - i] == g[i][j]);
    assert(block_at(r, j, n - 1 - i));
}

/// The standard pieces have sound shapes.
pub proof fn lemma_standard_piece_sound(c: PieceColor)
    ensures
        sound_shape(standard_piece(c).0),
{
    lemma_standard_piece_shape(c);
}

/// The blocks of a standard piece lie in its top two rows.
pub proof fn lemma_standard_blocks_on_top(c: PieceColor)
    ensures
        forall|i: int, j: int| #[trigger] block_at(standard_piece(c).0, i, j) ==> 0 <= i <= 1 && 0 <= j <= 3,
{
    let g = standard_piece(c).0;
    lemma_standard_piece_shape(c);
    assert forall|i: int, j: int| #[trigger] block_at(g, i, j) implies 0 <= i <= 1 && 0 <= j <= 3 by {
        assert(g[i].len() == g.len());
        if i >= 2 {
            assert(j == 0 || j == 1 || j == 2 || j == 3);
            assert(!g[i][j]);
        }
    }
}

} // verus!
