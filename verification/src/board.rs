use vstd::prelude::*;
use crate::piece::{PieceColor, MovingTetromino, grid_view, block_at, has_block};

verus! {

/// The playing field and the side panels: rows of cells, each empty or
/// holding the colour of a locked block.
pub type Board = Vec<Vec<Option<PieceColor>>>;

/// Rows of the playing field.
pub const BOARDHEIGHT: u16 = 20;
/// Columns of the playing field.
pub const BOARDWIDTH: u16 = 10;
/// Screen column of the field's first cell.
pub const BOARDX: u16 = 25;
/// Screen row of the field's first cell.
pub const BOARDY: u16 = 2;
/// Screen column at which new pieces appear.
pub const PIECESTARTX: u16 = BOARDX + (BOARDWIDTH / 2);
/// Rows of the panel that shows the held piece.
pub const HELDBOARDHEIGHT: u16 = 4;
/// Columns of the panel that shows the held piece.
pub const HELDBOARDWIDTH: u16 = 6;
/// Screen column of the held-piece panel.
pub const HELDBOARDX: u16 = 15;
/// Screen row of the held-piece panel.
pub const HELDBOARDY: u16 = 3;

/// The cells of a board, row by row.
pub open spec fn cells(b: &Board) -> Seq<Seq<Option<PieceColor>>> {
    b@.map_values(|row: Vec<Option<PieceColor>>| row@)
}

/// A grid of `h` rows of `w` empty cells.
pub open spec fn empty_grid(h: int, w: int) -> Seq<Seq<Option<PieceColor>>> {
    Seq::new(h as nat, |r: int| Seq::new(w as nat, |c: int| None::<PieceColor>))
}

/// Every row of `g` is at least as long as its first row (what reading the
/// grid column by column over the first row's width needs).
pub open spec fn rows_cover_first(g: Seq<Seq<bool>>) -> bool {
    forall|i: int| 0 <= i < g.len() ==> #[trigger] g[i].len() >= g[0].len()
}

/// A piece whose top-left cell is at screen position `(px, py)`, drawn onto
/// a board whose first cell is at screen position `(bx, by)`, has a block
/// on board cell `(r, c)`.
pub open spec fn covers(g: Seq<Seq<bool>>, px: int, py: int, bx: int, by: int, r: int, c: int) -> bool {
    block_at(g, r + by - py, c + bx - px)
}

/// Every block of the piece falls on a cell of the board.
pub open spec fn blocks_on_board(
    cs: Seq<Seq<Option<PieceColor>>>,
    g: Seq<Seq<bool>>,
    px: int,
    py: int,
    bx: int,
    by: int,
) -> bool {
    forall|i: int, j: int|
        #[trigger] block_at(g, i, j) ==> {
            let r = py + i - by;
            let c = px + j - bx;
            0 <= r < cs.len() && 0 <= c < cs[r].len()
        }
}

/// The board with the piece's blocks painted in its colour.
pub open spec fn placed(
    cs: Seq<Seq<Option<PieceColor>>>,
    g: Seq<Seq<bool>>,
    color: PieceColor,
    px: int,
    py: int,
    bx: int,
    by: int,
) -> Seq<Seq<Option<PieceColor>>> {
    Seq::new(
        cs.len(),
        |r: int|
            Seq::new(
                cs[r].len(),
                |c: int|
                    if covers(g, px, py, bx, by, r, c) {
                        Some(color)
                    } else {
                        cs[r][c]
                    },
            ),
    )
}

/// What placing a piece on a board demands: the grid has a first row, the
/// screen coordinates of its far edges fit in a `u16`, its rows are as long
/// as the first, and every block falls on the board.
pub open spec fn placement_fits(
    cs: Seq<Seq<Option<PieceColor>>>,
    g: Seq<Seq<bool>>,
    px: int,
    py: int,
    bx: int,
    by: int,
) -> bool {
    &&& g.len() >= 1
    &&& px + g[0].len() <= u16::MAX
    &&& py + g.len() <= u16::MAX
    &&& rows_cover_first(g)
    &&& blocks_on_board(cs, g, px, py, bx, by)
}

/// A row of `w` empty cells.
pub fn empty_row(w: usize) -> (row: Vec<Option<PieceColor>>)
    ensures
        row@ == Seq::new(w as nat, |c: int| None::<PieceColor>),
{
    let mut row: Vec<Option<PieceColor>> = Vec::new();
    for c in 0..w
        invariant
            row@ == Seq::new(c as nat, |k: int| None::<PieceColor>),
    {
        row.push(None);
        assert(row@ =~= Seq::new((c + 1) as nat, |k: int| None::<PieceColor>));
    }
    row
}

/// A board of `h` rows of `w` empty cells.
pub fn empty_board(h: usize, w: usize) -> (b: Board)
    ensures
        cells(&b) == empty_grid(h as int, w as int),
{
    let mut b: Board = Vec::new();
    for r in 0..h
        invariant
            b.len() == r,
            forall|k: int| 0 <= k < r ==> #[trigger] b@[k]@ == Seq::new(w as nat, |c: int| None::<PieceColor>),
    {
        b.push(empty_row(w));
    }
    assert(cells(&b) =~= empty_grid(h as int, w as int));
    b
}

/// A copy of a row of cells.
fn copy_row(row: &Vec<Option<PieceColor>>) -> (r: Vec<Option<PieceColor>>)
    ensures
        r@ == row@,
{
    let mut r: Vec<Option<PieceColor>> = Vec::new();
    for c in 0..row.len()
        invariant
            r.len() == c,
            forall|k: int| 0 <= k < c ==> #[trigger] r@[k] == row@[k],
    {
        r.push(row[c]);
    }
    assert(r@ =~= row@);
    r
}

/// A copy of a board.
pub fn copy_board(b: &Board) -> (r: Board)
    ensures
        cells(&r) == cells(b),
{
    let mut r: Board = Vec::new();
    for k in 0..b.len()
        invariant
            r.len() == k,
            forall|i: int| 0 <= i < k ==> #[trigger] r@[i]@ == b@[i]@,
    {
        r.push(copy_row(&b[k]));
    }
    assert(cells(&r) =~= cells(b));
    r
}

/// Writes one cell of a board.
fn set_cell(b: &mut Board, r: usize, c: usize, v: Option<PieceColor>)
    requires
        r < old(b).len(),
        c < old(b)@[r as int].len(),
    ensures
        cells(final(b)) == cells(old(b)).update(r as int, cells(old(b))[r as int].update(c as int, v)),
{
    let mut row = b.remove(r);
    row.set(c, v);
    b.insert(r, row);
    assert(cells(b) =~= cells(old(b)).update(r as int, cells(old(b))[r as int].update(c as int, v)));
}

/// The piece's block `(i, j)` comes before column `jx`, or in column `jx`
/// above row `iy`: the blocks that a column-by-column walk has painted.
spec fn painted_before(g: Seq<Seq<bool>>, i: int, j: int, jx: int, iy: int) -> bool {
    block_at(g, i, j) && (j < jx || (j == jx && i < iy))
}

spec fn partly_placed(
    cs: Seq<Seq<Option<PieceColor>>>,
    g: Seq<Seq<bool>>,
    color: PieceColor,
    px: int,
    py: int,
    bx: int,
    by: int,
    jx: int,
    iy: int,
) -> Seq<Seq<Option<PieceColor>>> {
    Seq::new(
        cs.len(),
        |r: int|
            Seq::new(
                cs[r].len(),
                |c: int|
                    if painted_before(g, r + by - py, c + bx - px, jx, iy) {
                        Some(color)
                    } else {
                        cs[r][c]
                    },
            ),
    )
}

/// Draws a piece onto a copy of a board whose first cell is at screen
/// position `(board_x, board_y)`: the cells under its blocks take its
/// colour, the others keep theirs.
pub fn place_piece_in_board(board: &Board, piece: &MovingTetromino, board_x: u16, board_y: u16) -> (res: Board)
    requires
        placement_fits(
            cells(board),
            piece.tetromino@.0,
            piece.coords.0 as int,
            piece.coords.1 as int,
            board_x as int,
            board_y as int,
        ),
    ensures
        cells(&res) == placed(
            cells(board),
            piece.tetromino@.0,
            piece.tetromino.color,
            piece.coords.0 as int,
            piece.coords.1 as int,
            board_x as int,
            board_y as int,
        ),
{
    let ghost cs = cells(board);
    let ghost g = piece.tetromino@.0;
    let ghost color = piece.tetromino.color;
    let mut tmp_board = copy_board(board);
    let piece_x: u16 = piece.coords.0;
    let piece_y: u16 = piece.coords.1;
    let piece_shape = &piece.tetromino.shape;
    let width: u16 = piece_shape[0].len() as u16;
    let height: u16 = piece_shape.len() as u16;
    let ghost (px, py, bx, by) = (piece_x as int, piece_y as int, board_x as int, board_y as int);
    assert(cells(&tmp_board) =~~= partly_placed(cs, g, color, px, py, bx, by, 0, 0));
    for x in piece_x..(piece_x + width)
        invariant
            cs == cells(board),
            g == grid_view(piece_shape),
            color == piece.tetromino.color,
            placement_fits(cs, g, px, py, bx, by),
            px == piece_x,
            py == piece_y,
            bx == board_x,
            by == board_y,
            width == g[0].len(),
            height == g.len(),
            piece_x <= x <= piece_x + width,
            cells(&tmp_board) == partly_placed(cs, g, color, px, py, bx, by, x - px, 0),
    {
        for y in piece_y..(piece_y + height)
            invariant
                cs == cells(board),
                g == grid_view(piece_shape),
                color == piece.tetromino.color,
                placement_fits(cs, g, px, py, bx, by),
                px == piece_x,
                py == piece_y,
                bx == board_x,
                by == board_y,
                width == g[0].len(),
                height == g.len(),
                piece_x <= x < piece_x + width,
                piece_y <= y <= piece_y + height,
                cells(&tmp_board) == partly_placed(cs, g, color, px, py, bx, by, x - px, y - py),
        {
            let i: usize = (y - piece_y) as usize;
            let j: usize = (x - piece_x) as usize;
            assert(g[i as int].len() >= g[0].len());
            let ghost before = cells(&tmp_board);
            if piece_shape[i][j] {
                assert(block_at(g, i as int, j as int));
                let r: usize = (y - board_y) as usize;
                let c: usize = (x - board_x) as usize;
                assert(0 <= r < cs.len() && 0 <= c < cs[r as int].len());
                assert(cells(&tmp_board).len() == tmp_board.len());
                assert(cells(&tmp_board)[r as int].len() == tmp_board@[r as int].len());
                set_cell(&mut tmp_board, r, c, Some(piece.tetromino.color));
                assert(cells(&tmp_board) =~~= partly_placed(cs, g, color, px, py, bx, by, x - px, y + 1 - py));
            } else {
                assert(cells(&tmp_board) =~~= partly_placed(cs, g, color, px, py, bx, by, x - px, y + 1 - py));
            }
        }
        assert(cells(&tmp_board) =~~= partly_placed(cs, g, color, px, py, bx, by, x + 1 - px, 0));
    }
    assert(cells(&tmp_board) =~~= placed(cs, g, color, px, py, bx, by));
    tmp_board
}

/// A board at least as large as the playing field.
pub open spec fn field_sized(cs: Seq<Seq<Option<PieceColor>>>) -> bool {
    &&& cs.len() >= BOARDHEIGHT
    &&& forall|r: int| 0 <= r < BOARDHEIGHT ==> #[trigger] cs[r].len() >= BOARDWIDTH
}

/// With its top-left cell at screen position `(x, y)`, each block of the
/// piece lies inside the playing field, below the field's top row, on an
/// empty cell.
pub open spec fn fits_on_field(cs: Seq<Seq<Option<PieceColor>>>, g: Seq<Seq<bool>>, x: int, y: int) -> bool {
    forall|i: int, j: int|
        #[trigger] block_at(g, i, j) ==> {
            &&& BOARDX <= x + j < BOARDX + BOARDWIDTH
            &&& BOARDY < y + i < BOARDY + BOARDHEIGHT
            &&& cs[y + i - BOARDY][x + j - BOARDX] is None
        }
}

/// The column a piece at `coords` would move to with `dx`, as the signed
/// 16-bit arithmetic of the move computes it.
pub open spec fn moved_x(coords: (u16, u16), dx: i16) -> int {
    (coords.0 as i16) + dx
}

/// The row a piece at `coords` would move to with `dy`.
pub open spec fn moved_y(coords: (u16, u16), dy: i16) -> int {
    (coords.1 as i16) + dy
}

/// The piece may move by `(dx, dy)`: the new position is not left of or
/// above the screen's edge, and there the piece fits on the field.
pub open spec fn valid_move(
    cs: Seq<Seq<Option<PieceColor>>>,
    g: Seq<Seq<bool>>,
    coords: (u16, u16),
    dx: i16,
    dy: i16,
) -> bool {
    let x = moved_x(coords, dx);
    let y = moved_y(coords, dy);
    x >= 0 && y >= 0 && fits_on_field(cs, g, x, y)
}

/// Every block of the piece, with its top-left cell at screen position
/// `(x, y)`, lies inside the field's screen area below its top row.
pub open spec fn within_field_area(g: Seq<Seq<bool>>, x: int, y: int) -> bool {
    forall|i: int, j: int|
        #[trigger] block_at(g, i, j) ==> {
            &&& BOARDX <= x + j < BOARDX + BOARDWIDTH
            &&& BOARDY < y + i < BOARDY + BOARDHEIGHT
        }
}

/// The board cells that a move check reads lie on the board: the cells
/// under the moved piece's blocks, read once the blocks are known to lie
/// inside the field's area.
pub open spec fn reads_on_board(cs: Seq<Seq<Option<PieceColor>>>, g: Seq<Seq<bool>>, x: int, y: int) -> bool {
    within_field_area(g, x, y) ==> blocks_on_board(cs, g, x, y, BOARDX as int, BOARDY as int)
}

/// A board as large as the field holds every cell a move check reads.
pub proof fn lemma_field_sized_reads(cs: Seq<Seq<Option<PieceColor>>>, g: Seq<Seq<bool>>, x: int, y: int)
    requires
        field_sized(cs),
    ensures
        reads_on_board(cs, g, x, y),
{
    if within_field_area(g, x, y) {
        assert forall|i: int, j: int| #[trigger] block_at(g, i, j) implies {
            let r = y + i - BOARDY;
            let c = x + j - BOARDX;
            0 <= r < cs.len() && 0 <= c < cs[r].len()
        } by {
            assert(cs[y + i - BOARDY].len() >= BOARDWIDTH);
        }
    }
}

/// What checking a move demands: the signed moved position fits in an
/// `i16`; and where that position is not left of or above the screen's
/// edge, the grid has a first row and rows as long as it, its far edges
/// fit in a `u16`, and the cells the check reads lie on the board.
pub open spec fn move_checkable(
    cs: Seq<Seq<Option<PieceColor>>>,
    g: Seq<Seq<bool>>,
    coords: (u16, u16),
    dx: i16,
    dy: i16,
) -> bool {
    let x = moved_x(coords, dx);
    let y = moved_y(coords, dy);
    &&& i16::MIN <= x <= i16::MAX
    &&& i16::MIN <= y <= i16::MAX
    &&& (x >= 0 && y >= 0 ==> {
        &&& g.len() >= 1
        &&& rows_cover_first(g)
        &&& x + g[0].len() <= u16::MAX
        &&& y + g.len() <= u16::MAX
        &&& reads_on_board(cs, g, x, y)
    })
}

spec fn in_field_before(g: Seq<Seq<bool>>, x: int, y: int, jx: int, iy: int) -> bool {
    forall|i: int, j: int|
        #[trigger] block_at(g, i, j) && (j < jx || (j == jx && i < iy)) ==> {
            &&& BOARDX <= x + j < BOARDX + BOARDWIDTH
            &&& BOARDY < y + i < BOARDY + BOARDHEIGHT
        }
}

/// Whether the piece may move by `(dx, dy)` on the board: every block of
/// the moved piece must lie inside the field, below its top row, on an
/// empty cell.
pub fn check_valid_board(board: &Board, piece: &MovingTetromino, dx: i16, dy: i16) -> (res: bool)
    requires
        move_checkable(cells(board), piece.tetromino@.0, piece.coords, dx, dy),
    ensures
        res == valid_move(cells(board), piece.tetromino@.0, piece.coords, dx, dy),
{
    let ghost cs = cells(board);
    let ghost g = piece.tetromino@.0;
    let piece_x: i16 = piece.coords.0 as i16 + dx;
    let piece_y: i16 = piece.coords.1 as i16 + dy;
    let piece_shape = &piece.tetromino.shape;
    if piece_x < 0 || piece_y < 0 {
        return false;
    }
    let upiece_x: u16 = piece_x as u16;
    let upiece_y: u16 = piece_y as u16;
    let width: u16 = piece_shape[0].len() as u16;
    let height: u16 = piece_shape.len() as u16;
    let ghost (ux, uy) = (upiece_x as int, upiece_y as int);
    for x in upiece_x..(upiece_x + width)
        invariant
            g == grid_view(piece_shape),
            g == piece.tetromino@.0,
            cs == cells(board),
            move_checkable(cs, g, piece.coords, dx, dy),
            ux == moved_x(piece.coords, dx),
            uy == moved_y(piece.coords, dy),
            ux == upiece_x,
            uy == upiece_y,
            width == g[0].len(),
            height == g.len(),
            upiece_x <= x <= upiece_x + width,
            in_field_before(g, ux, uy, x - ux, 0),
    {
        for y in upiece_y..(upiece_y + height)
            invariant
                g == grid_view(piece_shape),
                g == piece.tetromino@.0,
                cs == cells(board),
                move_checkable(cs, g, piece.coords, dx, dy),
                ux == moved_x(piece.coords, dx),
                uy == moved_y(piece.coords, dy),
                ux == upiece_x,
                uy == upiece_y,
                width == g[0].len(),
                height == g.len(),
                upiece_x <= x < upiece_x + width,
                upiece_y <= y <= upiece_y + height,
                in_field_before(g, ux, uy, x - ux, y - uy),
        {
            let i: usize = (y - upiece_y) as usize;
            let j: usize = (x - upiece_x) as usize;
            assert(g[i as int].len() >= g[0].len());
            if piece_shape[i][j] {
                assert(block_at(g, i as int, j as int));
                if x < BOARDX || x >= BOARDX + BOARDWIDTH {
                    assert(!fits_on_field(cs, g, ux, uy));
                    assert(!valid_move(cs, g, piece.coords, dx, dy));
                    return false;
                } else if y <= BOARDY || y >= BOARDY + BOARDHEIGHT {
                    assert(!fits_on_field(cs, g, ux, uy));
                    assert(!valid_move(cs, g, piece.coords, dx, dy));
                    return false;
                }
            }
        }
    }
    let mut tmp_piece = piece.duplicate();
    tmp_piece.coords = (upiece_x, upiece_y);
    let field = empty_board(BOARDHEIGHT as usize, BOARDWIDTH as usize);
    let ghost ecs = cells(&field);
    assert(blocks_on_board(ecs, g, ux, uy, BOARDX as int, BOARDY as int)) by {
        assert forall|i: int, j: int| #[trigger] block_at(g, i, j) implies {
            let r = uy + i - BOARDY;
            let c = ux + j - BOARDX;
            0 <= r < ecs.len() && 0 <= c < ecs[r].len()
        } by {
            assert(in_field_before(g, ux, uy, width as int, 0));
        }
    }
    assert(within_field_area(g, ux, uy)) by {
        assert(in_field_before(g, ux, uy, width as int, 0));
    }
    assert(blocks_on_board(cs, g, ux, uy, BOARDX as int, BOARDY as int));
    let board_with_placed_piece = place_piece_in_board(&field, &tmp_piece, BOARDX, BOARDY);
    let ghost bw = cells(&board_with_placed_piece);
    assert(bw.len() == BOARDHEIGHT);
    assert(board_with_placed_piece.len() == BOARDHEIGHT);
    for x in 0..(BOARDWIDTH as usize)
        invariant
            bw == cells(&board_with_placed_piece),
            board_with_placed_piece.len() == BOARDHEIGHT,
            bw == placed(ecs, g, piece.tetromino.color, ux, uy, BOARDX as int, BOARDY as int),
            ecs == empty_grid(BOARDHEIGHT as int, BOARDWIDTH as int),
            cs == cells(board),
            g == piece.tetromino@.0,
            ux == moved_x(piece.coords, dx),
            uy == moved_y(piece.coords, dy),
            blocks_on_board(cs, g, ux, uy, BOARDX as int, BOARDY as int),
            board.len() == cs.len(),
            forall|r: int, c: int|
                0 <= r < BOARDHEIGHT && 0 <= c < x ==> !(#[trigger] bw[r][c] is Some && cs[r][c] is Some),
    {
        for y in 0..(BOARDHEIGHT as usize)
            invariant
                bw == cells(&board_with_placed_piece),
                board_with_placed_piece.len() == BOARDHEIGHT,
                bw == placed(ecs, g, piece.tetromino.color, ux, uy, BOARDX as int, BOARDY as int),
                ecs == empty_grid(BOARDHEIGHT as int, BOARDWIDTH as int),
                cs == cells(board),
                g == piece.tetromino@.0,
                ux == moved_x(piece.coords, dx),
                uy == moved_y(piece.coords, dy),
                blocks_on_board(cs, g, ux, uy, BOARDX as int, BOARDY as int),
                board.len() == cs.len(),
                x < BOARDWIDTH,
                forall|r: int, c: int|
                    0 <= r < BOARDHEIGHT && 0 <= c < x ==> !(#[trigger] bw[r][c] is Some && cs[r][c] is Some),
                forall|r: int| 0 <= r < y ==> !(#[trigger] bw[r][x as int] is Some && cs[r][x as int] is Some),
        {
            assert(bw[y as int].len() == BOARDWIDTH);
            assert(cells(&board_with_placed_piece)[y as int] == board_with_placed_piece@[y as int]@);
            let under_piece = board_with_placed_piece[y][x].is_some();
            if under_piece {
                proof {
                    let i = y + BOARDY - uy;
                    let j = x + BOARDX - ux;
                    assert(covers(g, ux, uy, BOARDX as int, BOARDY as int, y as int, x as int));
                    assert(block_at(g, i, j));
                    assert(cells(board)[y as int] == board@[y as int]@);
                }
                if board[y][x].is_some() {
                    return false;
                }
            }
        }
    }
    assert forall|i: int, j: int| #[trigger] block_at(g, i, j) implies {
        &&& BOARDX <= ux + j < BOARDX + BOARDWIDTH
        &&& BOARDY < uy + i < BOARDY + BOARDHEIGHT
        &&& cs[uy + i - BOARDY][ux + j - BOARDX] is None
    } by {
        assert(in_field_before(g, ux, uy, width as int, 0));
        let r = uy + i - BOARDY;
        let c = ux + j - BOARDX;
        assert(covers(g, ux, uy, BOARDX as int, BOARDY as int, r, c));
        assert(bw[r][c] is Some);
    }
    true
}

/// A `u16` below `2^15` keeps its value when read as an `i16`.
pub proof fn lemma_small_u16_as_i16(v: u16)
    requires
        v < 0x8000,
    ensures
        (v as i16) as int == v as int,
{
    assert((v as i16) as int == v as int) by (bit_vector)
        requires
            v < 0x8000u16,
    ;
}

/// A piece in column `x` with its top row at screen row `y` may move one
/// row down.
pub open spec fn can_fall(cs: Seq<Seq<Option<PieceColor>>>, g: Seq<Seq<bool>>, x: u16, y: int) -> bool {
    valid_move(cs, g, (x, y as u16), 0, 1)
}

/// Moves the piece down one row at a time for as long as the move is
/// valid: it ends on the first row, counting down from where it stood, from
/// which it cannot fall further.
pub fn drop_piece(board: &Board, piece: &mut MovingTetromino)
    requires
        move_checkable(cells(board), old(piece).tetromino@.0, old(piece).coords, 0, 1),
        field_sized(cells(board)),
        has_block(old(piece).tetromino@.0),
        old(piece).tetromino@.0.len() + BOARDY + BOARDHEIGHT <= u16::MAX,
        old(piece).coords.1 < i16::MAX,
    ensures
        final(piece).tetromino@ == old(piece).tetromino@,
        final(piece).coords.0 == old(piece).coords.0,
        old(piece).coords.1 <= final(piece).coords.1 < i16::MAX,
        forall|y: int|
            old(piece).coords.1 <= y < final(piece).coords.1 ==> #[trigger] can_fall(
                cells(board),
                old(piece).tetromino@.0,
                old(piece).coords.0,
                y,
            ),
        !can_fall(cells(board), old(piece).tetromino@.0, old(piece).coords.0, final(piece).coords.1 as int),
{
    let ghost cs = cells(board);
    let ghost g = piece.tetromino@.0;
    let ghost y0 = piece.coords.1 as int;
    let ghost x0 = piece.coords.0;
    loop
        invariant
            cs == cells(board),
            g == piece.tetromino@.0,
            piece.tetromino@ == old(piece).tetromino@,
            piece.coords.0 == x0,
            x0 == old(piece).coords.0,
            y0 == old(piece).coords.1,
            y0 <= piece.coords.1 < i16::MAX,
            piece.coords.1 == y0 || piece.coords.1 <= BOARDY + BOARDHEIGHT - 1,
            move_checkable(cs, g, (x0, y0 as u16), 0, 1),
            field_sized(cs),
            has_block(g),
            g.len() + BOARDY + BOARDHEIGHT <= u16::MAX,
            forall|y: int| y0 <= y < piece.coords.1 ==> #[trigger] can_fall(cs, g, x0, y),
        ensures
            piece.tetromino@ == old(piece).tetromino@,
            piece.coords.0 == x0,
            y0 <= piece.coords.1 < i16::MAX,
            forall|y: int| y0 <= y < piece.coords.1 ==> #[trigger] can_fall(cs, g, x0, y),
            !can_fall(cs, g, x0, piece.coords.1 as int),
        decreases i16::MAX - piece.coords.1,
    {
        let ghost y = piece.coords.1;
        proof {
            lemma_small_u16_as_i16(y);
            lemma_field_sized_reads(cs, g, moved_x(piece.coords, 0), moved_y(piece.coords, 1));
        }
        assert(move_checkable(cs, g, piece.coords, 0, 1));
        if !check_valid_board(board, piece, 0, 1) {
            assert(piece.coords == (x0, y as u16));
            break;
        }
        proof {
            let (i, j) = choose|i: int, j: int| #[trigger] block_at(g, i, j);
            assert(block_at(g, i, j));
            assert(piece.coords == (x0, y as u16));
            assert(y + 1 + i < BOARDY + BOARDHEIGHT);
        }
        piece.coords.1 = piece.coords.1 + 1;
    }
}

/// Every cell of the row holds a block.
pub open spec fn row_full(row: Seq<Option<PieceColor>>) -> bool {
    forall|c: int| 0 <= c < row.len() ==> #[trigger] row[c] is Some
}

/// How many rows, counted up from the bottom, are full without a gap.
pub open spec fn full_bottom_rows(cs: Seq<Seq<Option<PieceColor>>>) -> nat
    decreases cs.len(),
{
    if cs.len() == 0 {
        0
    } else if row_full(cs.last()) {
        1 + full_bottom_rows(cs.drop_last())
    } else {
        0
    }
}

/// The grid moved down by `m` rows: the bottom `m` rows drop out and `m`
/// empty rows, as wide as the first row, come in at the top.
pub open spec fn shifted_down(cs: Seq<Seq<Option<PieceColor>>>, m: int) -> Seq<Seq<Option<PieceColor>>> {
    Seq::new(
        cs.len(),
        |r: int|
            if r < m {
                Seq::new(cs[0].len(), |c: int| None::<PieceColor>)
            } else {
                cs[r - m]
            },
    )
}

/// The board after its full bottom rows are cleared: the rows above them
/// move down and empty rows fill the top.
pub open spec fn cleared(cs: Seq<Seq<Option<PieceColor>>>) -> Seq<Seq<Option<PieceColor>>> {
    shifted_down(cs, full_bottom_rows(cs) as int)
}

/// What clearing demands: the board has a row, and if its bottom row is
/// full then its first row has a cell (else the rows coming in at the top
/// would be full as well and clearing would never end).
pub open spec fn clearable(cs: Seq<Seq<Option<PieceColor>>>) -> bool {
    &&& cs.len() >= 1
    &&& (row_full(cs.last()) ==> cs[0].len() >= 1)
}

/// The count of full bottom rows: each of them is full, and the row just
/// above them, if there is one, is not.
pub proof fn lemma_full_bottom_rows(cs: Seq<Seq<Option<PieceColor>>>)
    ensures
        full_bottom_rows(cs) <= cs.len(),
        forall|m: int| 0 <= m < full_bottom_rows(cs) ==> #[trigger] row_full(cs[cs.len() - 1 - m]),
        full_bottom_rows(cs) < cs.len() ==> !row_full(cs[cs.len() - 1 - full_bottom_rows(cs)]),
    decreases cs.len(),
{
    if cs.len() > 0 && row_full(cs.last()) {
        let d = cs.drop_last();
        lemma_full_bottom_rows(d);
        assert forall|m: int| 0 <= m < full_bottom_rows(cs) implies #[trigger] row_full(
            cs[cs.len() - 1 - m],
        ) by {
            if m > 0 {
                assert(row_full(d[d.len() - 1 - (m - 1)]));
                assert(cs[cs.len() - 1 - m] == d[d.len() - 1 - (m - 1)]);
            }
        }
        if full_bottom_rows(cs) < cs.len() {
            assert(cs[cs.len() - 1 - full_bottom_rows(cs)] == d[d.len() - 1 - full_bottom_rows(d)]);
        }
    }
}

/// Whether every cell of the row holds a block.
fn row_is_full(row: &Vec<Option<PieceColor>>) -> (b: bool)
    ensures
        b == row_full(row@),
{
    for c in 0..row.len()
        invariant
            forall|k: int| 0 <= k < c ==> #[trigger] row@[k] is Some,
    {
        if row[c].is_none() {
            return false;
        }
    }
    true
}

/// Clears the full rows at the bottom of the board: while the bottom row
/// is full, every row moves down one place and an empty row comes in at
/// the top.  A full row that stands above a row with a gap stays.
pub fn clear_lines(board: Board) -> (res: Board)
    requires
        clearable(cells(&board)),
    ensures
        cells(&res) == cleared(cells(&board)),
{
    let ghost cs = cells(&board);
    let len = board.len();
    let mut board_tmp = copy_board(&board);
    proof {
        lemma_full_bottom_rows(cs);
    }
    assert(cells(&board)[len - 1] == board@[len - 1]@);
    if row_is_full(&board[len - 1]) {
        let ghost k = full_bottom_rows(cs) as int;
        let width = board[0].len();
        assert(cells(&board)[0] == board@[0]@);
        let mut board_tmp_tmp = empty_board(len, width);
        let ghost mut m: int = 0;
        assert(cells(&board_tmp) =~~= shifted_down(cs, 0));
        assert(cells(&board_tmp_tmp).len() == board_tmp_tmp.len());
        assert(cells(&board_tmp).len() == board_tmp.len());
        while row_is_full(&board_tmp[len - 1])
            invariant
                cs == cells(&board),
                len == cs.len(),
                len >= 1,
                width == cs[0].len(),
                width >= 1,
                k == full_bottom_rows(cs),
                1 <= k <= len,
                forall|q: int| 0 <= q < k ==> #[trigger] row_full(cs[len - 1 - q]),
                k < len ==> !row_full(cs[len - 1 - k]),
                0 <= m <= k,
                cells(&board_tmp) == shifted_down(cs, m),
                board_tmp.len() == len,
                board_tmp_tmp.len() == len,
                cells(&board_tmp_tmp)[0] == Seq::new(width as nat, |c: int| None::<PieceColor>),
                m >= 1 ==> cells(&board_tmp_tmp) == cells(&board_tmp),
            decreases k - m,
        {
            assert(cells(&board_tmp)[len - 1] == board_tmp@[len - 1]@);
            proof {
                if m >= len {
                    let er = shifted_down(cs, m)[len - 1];
                    assert(!(er[0] is Some));
                } else if m == k {
                    assert(shifted_down(cs, m)[len - 1] == cs[len - 1 - k]);
                }
            }
            let ghost prev = cells(&board_tmp);
            board_tmp.set(len - 1, empty_row(10));
            assert forall|r: int| 0 <= r < len - 1 implies #[trigger] cells(&board_tmp)[r] == prev[r] by {
                assert(cells(&board_tmp)[r] == board_tmp@[r]@);
            }
            for i in 1..len
                invariant
                    len == cs.len(),
                    board_tmp.len() == len,
                    board_tmp_tmp.len() == len,
                    forall|r: int| 0 <= r < len - 1 ==> #[trigger] cells(&board_tmp)[r] == prev[r],
                    cells(&board_tmp_tmp)[0] == Seq::new(width as nat, |c: int| None::<PieceColor>),
                    forall|r: int| 1 <= r < i ==> #[trigger] cells(&board_tmp_tmp)[r] == prev[r - 1],
            {
                assert(cells(&board_tmp)[i - 1] == board_tmp@[i - 1]@);
                let row = copy_row(&board_tmp[i - 1]);
                let ghost before = cells(&board_tmp_tmp);
                board_tmp_tmp.set(i, row);
                assert forall|r: int| 0 <= r < len && r != i implies #[trigger] cells(&board_tmp_tmp)[r]
                    == before[r] by {
                    assert(cells(&board_tmp_tmp)[r] == board_tmp_tmp@[r]@);
                }
                assert(cells(&board_tmp_tmp)[i as int] == board_tmp_tmp@[i as int]@);
            }
            assert(cells(&board_tmp_tmp) =~= shifted_down(cs, m + 1)) by {
                assert forall|r: int| 0 <= r < len implies #[trigger] cells(&board_tmp_tmp)[r]
                    == shifted_down(cs, m + 1)[r] by {
                    if r >= 1 {
                        assert(cells(&board_tmp_tmp)[r] == prev[r - 1]);
                    }
                }
            }
            board_tmp = copy_board(&board_tmp_tmp);
            assert(cells(&board_tmp).len() == board_tmp.len());
            proof {
                m = m + 1;
            }
        }
        proof {
            if m < k {
                assert(shifted_down(cs, m)[len - 1] == cs[len - 1 - m]);
                assert(cells(&board_tmp)[len - 1] == board_tmp@[len - 1]@);
            }
        }
        assert(m == k);
        return board_tmp_tmp;
    }
    assert(full_bottom_rows(cs) == 0);
    assert(cleared(cs) =~= cs);
    board
}

/// After clearing, no full row stands at the bottom: clearing a cleared
/// board changes nothing.
pub proof fn lemma_clear_lines_idempotent(cs: Seq<Seq<Option<PieceColor>>>)
    requires
        clearable(cs),
    ensures
        clearable(cleared(cs)),
        full_bottom_rows(cleared(cs)) == 0,
        cleared(cleared(cs)) == cleared(cs),
        cleared(cs).len() == cs.len(),
{
    lemma_full_bottom_rows(cs);
    let k = full_bottom_rows(cs) as int;
    let c = cleared(cs);
    let len = cs.len() as int;
    if k >= 1 {
        let last = c[len - 1];
        if k < len {
            assert(last == cs[len - 1 - k]);
        } else {
            assert(!(last[0] is Some));
        }
        assert(!row_full(c.last()));
    } else {
        assert(c =~= cs);
    }
    assert(full_bottom_rows(c) == 0);
    assert(cleared(c) =~= c);
}

/// A ten-by-ten grid of empty cells, whatever board and amount it is
/// given: the shift it is named for was never written.
pub fn shift_down_board(board: Board, amount: u16) -> (res: Board)
    ensures
        cells(&res) == empty_grid(10, 10),
{
    empty_board(10, 10)
}

/// Whether placing the piece on the board, with the board's first cell at
/// screen position `(board_x, board_y)`, is possible: the demand of
/// `place_piece_in_board`.
pub fn piece_fits_board(board: &Board, piece: &MovingTetromino, board_x: u16, board_y: u16) -> (b: bool)
    ensures
        b == placement_fits(
            cells(board),
            piece.tetromino@.0,
            piece.coords.0 as int,
            piece.coords.1 as int,
            board_x as int,
            board_y as int,
        ),
{
    let ghost cs = cells(board);
    let ghost g = piece.tetromino@.0;
    let ghost (px, py, bx, by) = (piece.coords.0 as int, piece.coords.1 as int, board_x as int, board_y as int);
    let shape = &piece.tetromino.shape;
    if shape.len() == 0 {
        return false;
    }
    let height = shape.len();
    let width = shape[0].len();
    if width > 65535 || height > 65535 {
        return false;
    }
    if piece.coords.0 as usize + width > 65535 || piece.coords.1 as usize + height > 65535 {
        return false;
    }
    for i in 0..height
        invariant
            height == shape.len(),
            height >= 1,
            width == shape@[0].len(),
            piece.coords.0 + width <= 65535,
            piece.coords.1 + height <= 65535,
            g == grid_view(shape),
            g == piece.tetromino@.0,
            cs == cells(board),
            forall|k: int| 0 <= k < i ==> #[trigger] g[k].len() >= g[0].len(),
    {
        assert(g[i as int] == shape@[i as int]@);
        if shape[i].len() < width {
            assert(!rows_cover_first(g));
            return false;
        }
    }
    assert(rows_cover_first(g));
    assert(cells(board).len() == board.len());
    for i in 0..height
        invariant
            height == shape.len(),
            height >= 1,
            width == shape@[0].len(),
            piece.coords.0 + width <= 65535,
            piece.coords.1 + height <= 65535,
            g == grid_view(shape),
            g == piece.tetromino@.0,
            cs == cells(board),
            cs.len() == board.len(),
            rows_cover_first(g),
            px == piece.coords.0,
            py == piece.coords.1,
            bx == board_x,
            by == board_y,
            forall|a: int, b: int|
                #[trigger] block_at(g, a, b) && a < i ==> {
                    let r = py + a - by;
                    let c = px + b - bx;
                    0 <= r < cs.len() && 0 <= c < cs[r].len()
                },
    {
        assert(g[i as int].len() >= width);
        for j in 0..width
            invariant
                height == shape.len(),
                height >= 1,
                width == shape@[0].len(),
                piece.coords.0 + width <= 65535,
                piece.coords.1 + height <= 65535,
                g == grid_view(shape),
                g == piece.tetromino@.0,
                cs == cells(board),
                cs.len() == board.len(),
                rows_cover_first(g),
                i < height,
                g[i as int].len() >= width,
                px == piece.coords.0,
                py == piece.coords.1,
                bx == board_x,
                by == board_y,
                forall|a: int, b: int|
                    #[trigger] block_at(g, a, b) && (a < i || (a == i && b < j)) ==> {
                        let r = py + a - by;
                        let c = px + b - bx;
                        0 <= r < cs.len() && 0 <= c < cs[r].len()
                    },
        {
            if shape[i][j] {
                assert(block_at(g, i as int, j as int));
                let row_pos: usize = piece.coords.1 as usize + i;
                let col_pos: usize = piece.coords.0 as usize + j;
                if row_pos < board_y as usize || col_pos < board_x as usize {
                    return false;
                }
                let r = row_pos - board_y as usize;
                let c = col_pos - board_x as usize;
                if r >= board.len() {
                    return false;
                }
                assert(cs[r as int] == board@[r as int]@);
                if c >= board[r].len() {
                    return false;
                }
            }
        }
    }
    true
}

/// Locking a piece where it may stand overwrites no locked block: every
/// cell it paints was empty, and every other cell keeps its content.
pub proof fn lemma_valid_placement_keeps_blocks(
    cs: Seq<Seq<Option<PieceColor>>>,
    g: Seq<Seq<bool>>,
    color: PieceColor,
    x: int,
    y: int,
)
    requires
        field_sized(cs),
        fits_on_field(cs, g, x, y),
    ensures
        forall|r: int, c: int|
            0 <= r < cs.len() && 0 <= c < cs[r].len() && #[trigger] cs[r][c] is Some ==> placed(
                cs,
                g,
                color,
                x,
                y,
                BOARDX as int,
                BOARDY as int,
            )[r][c] == cs[r][c],
{
    assert forall|r: int, c: int|
        0 <= r < cs.len() && 0 <= c < cs[r].len() && #[trigger] cs[r][c] is Some implies placed(
            cs,
            g,
            color,
            x,
            y,
            BOARDX as int,
            BOARDY as int,
        )[r][c] == cs[r][c] by {
        if covers(g, x, y, BOARDX as int, BOARDY as int, r, c) {
            let i = r + BOARDY - y;
            let j = c + BOARDX - x;
            assert(block_at(g, i, j));
        }
    }
}

/// A sideways move can be undone: from a place where the piece fits, if it
/// may move by `dx` columns it may then move back, to where it was.
pub proof fn lemma_sideways_move_undone(cs: Seq<Seq<Option<PieceColor>>>, g: Seq<Seq<bool>>, x: u16, y: u16, dx: i16)
    requires
        x < 0x8000,
        y < 0x8000,
        dx == 1 || dx == -1,
        has_block(g),
        fits_on_field(cs, g, x as int, y as int),
        valid_move(cs, g, (x, y), dx, 0),
    ensures
        valid_move(cs, g, ((x + dx) as u16, y), -dx as i16, 0),
        moved_x(((x + dx) as u16, y), -dx as i16) == x,
{
    lemma_small_u16_as_i16(x);
    lemma_small_u16_as_i16(y);
    let nx = (x + dx) as u16;
    assert(moved_x((x, y), dx) == x + dx);
    assert(0 <= x + dx);
    let (i, j) = choose|i: int, j: int| #[trigger] block_at(g, i, j);
    assert(fits_on_field(cs, g, x + dx, y as int));
    assert(x + dx + j < BOARDX + BOARDWIDTH);
    assert(nx == x + dx);
    assert(nx < 0x8000);
    lemma_small_u16_as_i16(nx);
}

/// An offset only shifts the tested position: checking a move by
/// `(dx, dy)` is checking the piece standing at the moved position without
/// a move, wherever that position is not left of or above the screen's
/// edge.
pub proof fn lemma_offset_shifts_position(
    cs: Seq<Seq<Option<PieceColor>>>,
    g: Seq<Seq<bool>>,
    coords: (u16, u16),
    dx: i16,
    dy: i16,
)
    requires
        0 <= moved_x(coords, dx) <= i16::MAX,
        0 <= moved_y(coords, dy) <= i16::MAX,
    ensures
        valid_move(cs, g, coords, dx, dy) == valid_move(
            cs,
            g,
            (moved_x(coords, dx) as u16, moved_y(coords, dy) as u16),
            0,
            0,
        ),
        coords.0 < 0x8000 && coords.1 < 0x8000 ==> moved_x(coords, dx) == coords.0 + dx && moved_y(
            coords,
            dy,
        ) == coords.1 + dy,
{
    let x = moved_x(coords, dx);
    let y = moved_y(coords, dy);
    let q = (x as u16, y as u16);
    assert(q.0 as int == x);
    assert(q.1 as int == y);
    lemma_small_u16_as_i16(q.0);
    lemma_small_u16_as_i16(q.1);
    assert(moved_x(q, 0) == x);
    assert(moved_y(q, 0) == y);
    if coords.0 < 0x8000 && coords.1 < 0x8000 {
        lemma_small_u16_as_i16(coords.0);
        lemma_small_u16_as_i16(coords.1);
    }
}

/// How many cells of the row hold a block.
pub open spec fn row_filled(a: Seq<Option<PieceColor>>) -> nat
    decreases a.len(),
{
    if a.len() == 0 {
        0
    } else {
        row_filled(a.drop_last()) + if a.last() is Some {
            1nat
        } else {
            0nat
        }
    }
}

/// How many cells of the board hold a block.
pub open spec fn filled_count(cs: Seq<Seq<Option<PieceColor>>>) -> nat
    decreases cs.len(),
{
    if cs.len() == 0 {
        0
    } else {
        filled_count(cs.drop_last()) + row_filled(cs.last())
    }
}

/// How many of the first `w` cells of a grid row are blocks.
pub open spec fn row_blocks(b: Seq<bool>, w: int) -> nat
    decreases w,
{
    if w <= 0 {
        0
    } else {
        row_blocks(b, w - 1) + if b[w - 1] {
            1nat
        } else {
            0nat
        }
    }
}

/// How many blocks the first `n` rows of a grid hold, within the width of
/// its first row.
pub open spec fn grid_blocks(g: Seq<Seq<bool>>, n: int) -> nat
    decreases n,
{
    if n <= 0 {
        0
    } else {
        grid_blocks(g, n - 1) + row_blocks(g[n - 1], g[0].len() as int)
    }
}

/// How many blocks a shape has.
pub open spec fn block_count(g: Seq<Seq<bool>>) -> nat {
    grid_blocks(g, g.len() as int)
}

/// Filling an empty cell adds one to the row's count.
proof fn lemma_row_fill_one(a: Seq<Option<PieceColor>>, c: int, v: PieceColor)
    requires
        0 <= c < a.len(),
        a[c] is None,
    ensures
        row_filled(a.update(c, Some(v))) == row_filled(a) + 1,
    decreases a.len(),
{
    let u = a.update(c, Some(v));
    if c == a.len() - 1 {
        assert(u.drop_last() =~= a.drop_last());
    } else {
        assert(u.drop_last() =~= a.drop_last().update(c, Some(v)));
        lemma_row_fill_one(a.drop_last(), c, v);
    }
}

/// The row with the blocks `j < k` of grid row `b` painted at `j + off`.
spec fn row_painted(a: Seq<Option<PieceColor>>, b: Seq<bool>, off: int, k: int, v: PieceColor) -> Seq<Option<PieceColor>> {
    Seq::new(a.len(), |c: int| if 0 <= c - off < k && b[c - off] { Some(v) } else { a[c] })
}

/// Painting a grid row's blocks onto empty cells adds its blocks to the
/// row's count.
proof fn lemma_row_paint(a: Seq<Option<PieceColor>>, b: Seq<bool>, off: int, k: int, v: PieceColor)
    requires
        0 <= k <= b.len(),
        forall|j: int| 0 <= j < k && b[j] ==> 0 <= j + off < a.len() && a[j + off] is None,
    ensures
        row_filled(row_painted(a, b, off, k, v)) == row_filled(a) + row_blocks(b, k),
    decreases k,
{
    if k == 0 {
        assert(row_painted(a, b, off, 0, v) =~= a);
    } else {
        lemma_row_paint(a, b, off, k - 1, v);
        let p = row_painted(a, b, off, k - 1, v);
        let q = row_painted(a, b, off, k, v);
        if b[k - 1] {
            let c = k - 1 + off;
            assert(p[c] is None);
            assert(q =~= p.update(c, Some(v)));
            lemma_row_fill_one(p, c, v);
        } else {
            assert(q =~= p);
        }
    }
}

/// Replacing one row changes the board's count by the change of that row.
proof fn lemma_count_update(cs: Seq<Seq<Option<PieceColor>>>, r: int, row: Seq<Option<PieceColor>>)
    requires
        0 <= r < cs.len(),
    ensures
        filled_count(cs.update(r, row)) + row_filled(cs[r]) == filled_count(cs) + row_filled(row),
    decreases cs.len(),
{
    let u = cs.update(r, row);
    if r == cs.len() - 1 {
        assert(u.drop_last() =~= cs.drop_last());
    } else {
        assert(u.drop_last() =~= cs.drop_last().update(r, row));
        lemma_count_update(cs.drop_last(), r, row);
    }
}

/// The board with the rows `i < k` of the piece painted.
spec fn rows_painted(
    cs: Seq<Seq<Option<PieceColor>>>,
    g: Seq<Seq<bool>>,
    color: PieceColor,
    px: int,
    py: int,
    bx: int,
    by: int,
    k: int,
) -> Seq<Seq<Option<PieceColor>>> {
    Seq::new(
        cs.len(),
        |r: int|
            if 0 <= r + by - py < k {
                placed(cs, g, color, px, py, bx, by)[r]
            } else {
                cs[r]
            },
    )
}

/// Placing a piece on empty cells adds its blocks to the board's count.
proof fn lemma_rows_paint(
    cs: Seq<Seq<Option<PieceColor>>>,
    g: Seq<Seq<bool>>,
    color: PieceColor,
    px: int,
    py: int,
    bx: int,
    by: int,
    k: int,
)
    requires
        0 <= k <= g.len(),
        g.len() >= 1,
        rows_cover_first(g),
        blocks_on_board(cs, g, px, py, bx, by),
        forall|i: int, j: int| #[trigger] block_at(g, i, j) ==> cs[py + i - by][px + j - bx] is None,
    ensures
        filled_count(rows_painted(cs, g, color, px, py, bx, by, k)) == filled_count(cs) + grid_blocks(g, k),
    decreases k,
{
    let pl = placed(cs, g, color, px, py, bx, by);
    if k == 0 {
        assert(rows_painted(cs, g, color, px, py, bx, by, 0) =~= cs);
    } else {
        lemma_rows_paint(cs, g, color, px, py, bx, by, k - 1);
        let p = rows_painted(cs, g, color, px, py, bx, by, k - 1);
        let q = rows_painted(cs, g, color, px, py, bx, by, k);
        let i = k - 1;
        let r = py + i - by;
        let w = g[0].len() as int;
        assert(g[i].len() >= w);
        if 0 <= r < cs.len() {
            let off = px - bx;
            assert(q =~= p.update(r, pl[r]));
            assert(p[r] == cs[r]);
            assert(pl[r] =~= row_painted(cs[r], g[i], off, w, color)) by {
                assert forall|c: int| 0 <= c < cs[r].len() implies pl[r][c] == row_painted(
                    cs[r],
                    g[i],
                    off,
                    w,
                    color,
                )[c] by {
                    if covers(g, px, py, bx, by, r, c) {
                        assert(block_at(g, i, c - off));
                    }
                }
            }
            assert forall|j: int| 0 <= j < w && g[i][j] implies 0 <= j + (px - bx) < cs[r].len() && cs[r][j
                + (px - bx)] is None by {
                assert(block_at(g, i, j));
            }
            lemma_row_paint(cs[r], g[i], off, w, color);
            lemma_count_update(p, r, pl[r]);
        } else {
            assert(q =~= p);
            assert(row_blocks(g[i], w) == 0) by {
                lemma_no_blocks_in_row(g, i, w);
            }
        }
    }
}

/// A grid row whose blocks would all fall off the board has none.
proof fn lemma_no_blocks_in_row(g: Seq<Seq<bool>>, i: int, w: int)
    requires
        0 <= i < g.len(),
        0 <= w <= g[0].len(),
        forall|j: int| 0 <= j < g[0].len() ==> !#[trigger] block_at(g, i, j),
    ensures
        row_blocks(g[i], w) == 0,
    decreases w,
{
    if w > 0 {
        assert(!block_at(g, i, w - 1));
        lemma_no_blocks_in_row(g, i, w - 1);
    }
}

/// Locking a piece where it may stand adds exactly its blocks to the
/// board: the number of filled cells grows by the piece's block count.
pub proof fn lemma_valid_placement_adds_blocks(
    cs: Seq<Seq<Option<PieceColor>>>,
    g: Seq<Seq<bool>>,
    color: PieceColor,
    x: int,
    y: int,
)
    requires
        field_sized(cs),
        g.len() >= 1,
        rows_cover_first(g),
        fits_on_field(cs, g, x, y),
    ensures
        filled_count(placed(cs, g, color, x, y, BOARDX as int, BOARDY as int)) == filled_count(cs)
            + block_count(g),
{
    let (bx, by) = (BOARDX as int, BOARDY as int);
    assert(blocks_on_board(cs, g, x, y, bx, by)) by {
        assert forall|i: int, j: int| #[trigger] block_at(g, i, j) implies {
            let r = y + i - by;
            let c = x + j - bx;
            0 <= r < cs.len() && 0 <= c < cs[r].len()
        } by {
            assert(cs[y + i - by].len() >= BOARDWIDTH);
        }
    }
    lemma_rows_paint(cs, g, color, x, y, bx, by, g.len() as int);
    assert(rows_painted(cs, g, color, x, y, bx, by, g.len() as int) =~= placed(cs, g, color, x, y, bx, by)) by {
        assert forall|r: int| 0 <= r < cs.len() implies #[trigger] rows_painted(
            cs,
            g,
            color,
            x,
            y,
            bx,
            by,
            g.len() as int,
        )[r] == placed(cs, g, color, x, y, bx, by)[r] by {
            if !(0 <= r + by - y < g.len()) {
                assert(placed(cs, g, color, x, y, bx, by)[r] =~= cs[r]);
            }
        }
    }
}

} // verus!
