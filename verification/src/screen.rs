use vstd::prelude::*;
use crate::piece::{
    PieceColor, Tetromino, MovingTetromino, block_at, standard_piece, lemma_standard_blocks_on_top,
};
use crate::board::{
    Board, BOARDX, BOARDY, HELDBOARDHEIGHT, HELDBOARDWIDTH, HELDBOARDX, HELDBOARDY, cells, empty_grid,
    empty_board, covers, placed, placement_fits, place_piece_in_board, piece_fits_board,
};
use crate::bag::{PieceView, pieces};

verus! {

/// How a cell of the playing field looks on screen.
#[derive(Clone, Copy, Debug, PartialEq, Eq, Structural)]
pub enum CellLook {
    /// Nothing there.
    Empty,
    /// A block of the falling piece, in its colour.
    Falling(PieceColor),
    /// A locked block, in its colour.
    Locked(PieceColor),
    /// Where the falling piece would land (drawn dark grey).
    Shadow,
}

/// The look of field cell `(r, c)`: the falling piece shows over locked
/// blocks, which show over the landing shadow.
pub open spec fn look_at(
    cs: Seq<Seq<Option<PieceColor>>>,
    g: Seq<Seq<bool>>,
    color: PieceColor,
    pos: (u16, u16),
    ghost_y: u16,
    r: int,
    c: int,
) -> CellLook {
    if covers(g, pos.0 as int, pos.1 as int, BOARDX as int, BOARDY as int, r, c) {
        CellLook::Falling(color)
    } else if cs[r][c] is Some {
        CellLook::Locked(cs[r][c]->0)
    } else if covers(g, pos.0 as int, ghost_y as int, BOARDX as int, BOARDY as int, r, c) {
        CellLook::Shadow
    } else {
        CellLook::Empty
    }
}

/// The falling piece is drawn on top: a cell under one of its blocks shows
/// the piece in its colour, whatever the shadow row; a locked block shows
/// where the piece is not; the shadow shows only on an empty cell that the
/// piece does not cover and the piece at the shadow row does.
pub proof fn lemma_look_priorities(
    cs: Seq<Seq<Option<PieceColor>>>,
    g: Seq<Seq<bool>>,
    color: PieceColor,
    pos: (u16, u16),
    ghost_y: u16,
    r: int,
    c: int,
)
    ensures
        covers(g, pos.0 as int, pos.1 as int, BOARDX as int, BOARDY as int, r, c) ==> look_at(
            cs,
            g,
            color,
            pos,
            ghost_y,
            r,
            c,
        ) == CellLook::Falling(color),
        look_at(cs, g, color, pos, ghost_y, r, c) == CellLook::Shadow ==> {
            &&& !covers(g, pos.0 as int, pos.1 as int, BOARDX as int, BOARDY as int, r, c)
            &&& cs[r][c] is None
            &&& covers(g, pos.0 as int, ghost_y as int, BOARDX as int, BOARDY as int, r, c)
        },
        look_at(cs, g, color, pos, ghost_y, r, c) matches CellLook::Locked(k) ==> {
            &&& !covers(g, pos.0 as int, pos.1 as int, BOARDX as int, BOARDY as int, r, c)
            &&& cs[r][c] == Some(k)
        },
        look_at(cs, g, color, pos, ghost_y, r, c) matches CellLook::Falling(k) ==> k == color,
{
}

/// The looks of the field's cells, row by row.
pub open spec fn looks(v: &Vec<Vec<CellLook>>) -> Seq<Seq<CellLook>> {
    v@.map_values(|row: Vec<CellLook>| row@)
}

/// Rows of the panel that shows the upcoming pieces.
pub const NEXTBOARDHEIGHT: u16 = 20;
/// Columns of the panel that shows the upcoming pieces.
pub const NEXTBOARDWIDTH: u16 = 6;
/// Screen column of the upcoming-pieces panel.
pub const NEXTBOARDX: u16 = 36;
/// Screen row of the upcoming-pieces panel.
pub const NEXTBOARDY: u16 = 2;
/// How many upcoming pieces the panel shows.
pub const NEXTPIECES: usize = 5;

/// The upcoming-pieces panel with the first `n` upcoming pieces drawn: the
/// `i`-th piece from the back of the bag stands one column in from the
/// panel's left edge, `4 * i + 1` rows down from its top.
pub open spec fn preview_cells(b: Seq<PieceView>, n: int) -> Seq<Seq<Option<PieceColor>>>
    decreases n,
{
    if n <= 0 {
        empty_grid(NEXTBOARDHEIGHT as int, NEXTBOARDWIDTH as int)
    } else {
        let i = n - 1;
        let p = b[b.len() - 1 - i];
        placed(
            preview_cells(b, n - 1),
            p.0,
            p.1,
            NEXTBOARDX + 1,
            4 * i + NEXTBOARDY + 1,
            NEXTBOARDX as int,
            NEXTBOARDY as int,
        )
    }
}

/// The preview panel keeps its size as pieces are drawn on it.
proof fn lemma_preview_size(b: Seq<PieceView>, n: int)
    ensures
        preview_cells(b, n).len() == NEXTBOARDHEIGHT,
        forall|r: int| 0 <= r < NEXTBOARDHEIGHT ==> #[trigger] preview_cells(b, n)[r].len() == NEXTBOARDWIDTH,
    decreases n,
{
    if n > 0 {
        lemma_preview_size(b, n - 1);
    }
}

/// The `i`-th upcoming piece: the `i + 1`-th from the back of the bag.
pub open spec fn upcoming_piece(b: Seq<PieceView>, i: int) -> PieceView {
    b[b.len() - 1 - i]
}

/// Panel cell `(r, c)` lies under block `(a, j)` of the `i`-th slot.
pub open spec fn in_slot(b: Seq<PieceView>, i: int, r: int, c: int) -> bool {
    block_at(upcoming_piece(b, i).0, r - 4 * i - 1, c - 1)
}

/// With the first `n` slots drawn, each block `(a, j)` of the `i`-th
/// upcoming piece shows in its colour at panel cell `(4 * i + 1 + a, 1 + j)`,
/// and a cell under no drawn slot's block is empty.
proof fn lemma_preview_slots(b: Seq<PieceView>, n: int)
    requires
        0 <= n <= NEXTPIECES,
        b.len() >= NEXTPIECES,
        forall|k: int| b.len() - NEXTPIECES <= k < b.len() ==> #[trigger] b[k] == standard_piece(b[k].1),
    ensures
        forall|i: int, a: int, j: int|
            0 <= i < n && #[trigger] block_at(upcoming_piece(b, i).0, a, j) ==> preview_cells(b, n)[4 * i + 1
                + a][1 + j] == Some(upcoming_piece(b, i).1),
        forall|r: int, c: int|
            0 <= r < NEXTBOARDHEIGHT && 0 <= c < NEXTBOARDWIDTH && (forall|i: int| 0 <= i < n ==> !#[trigger] in_slot(b, i, r, c))
                ==> #[trigger] preview_cells(b, n)[r][c] is None,
    decreases n,
{
    lemma_preview_size(b, n);
    if n > 0 {
        lemma_preview_slots(b, n - 1);
        lemma_preview_size(b, n - 1);
        let q = n - 1;
        let p = upcoming_piece(b, q);
        assert(p == standard_piece(p.1));
        lemma_standard_blocks_on_top(p.1);
        let prev = preview_cells(b, n - 1);
        let cur = preview_cells(b, n);
        assert forall|i: int, a: int, j: int|
            0 <= i < n && #[trigger] block_at(upcoming_piece(b, i).0, a, j) implies cur[4 * i + 1 + a][1
                + j] == Some(upcoming_piece(b, i).1) by {
            let pi = upcoming_piece(b, i);
            assert(pi == standard_piece(pi.1));
            lemma_standard_blocks_on_top(pi.1);
            let r = 4 * i + 1 + a;
            let c = 1 + j;
            if i == q {
                assert(covers(p.0, NEXTBOARDX + 1, 4 * q + NEXTBOARDY + 1, NEXTBOARDX as int, NEXTBOARDY as int, r, c));
            } else {
                assert(!covers(p.0, NEXTBOARDX + 1, 4 * q + NEXTBOARDY + 1, NEXTBOARDX as int, NEXTBOARDY as int, r, c));
            }
        }
        assert forall|r: int, c: int|
            0 <= r < NEXTBOARDHEIGHT && 0 <= c < NEXTBOARDWIDTH && (forall|i: int| 0 <= i < n ==> !#[trigger] in_slot(b, i, r, c))
                implies #[trigger] cur[r][c] is None by {
            assert(!in_slot(b, q, r, c));
            assert(!covers(p.0, NEXTBOARDX + 1, 4 * q + NEXTBOARDY + 1, NEXTBOARDX as int, NEXTBOARDY as int, r, c));
            assert(forall|i: int| 0 <= i < n - 1 ==> !#[trigger] in_slot(b, i, r, c));
        }
    }
}

/// The panel showing the next five pieces, the next one at the top.
pub fn next_pieces_board(bag: &Vec<Tetromino>) -> (panel: Board)
    requires
        pieces(bag).len() >= NEXTPIECES,
        forall|k: int|
            pieces(bag).len() - NEXTPIECES <= k < pieces(bag).len() ==> #[trigger] pieces(bag)[k]
                == standard_piece(pieces(bag)[k].1),
    ensures
        cells(&panel) == preview_cells(pieces(bag), NEXTPIECES as int),
        cells(&panel).len() == NEXTBOARDHEIGHT,
        forall|r: int| 0 <= r < NEXTBOARDHEIGHT ==> #[trigger] cells(&panel)[r].len() == NEXTBOARDWIDTH,
        forall|i: int, a: int, j: int|
            0 <= i < NEXTPIECES && #[trigger] block_at(pieces(bag)[pieces(bag).len() - 1 - i].0, a, j)
                ==> cells(&panel)[4 * i + 1 + a][1 + j] == Some(pieces(bag)[pieces(bag).len() - 1 - i].1),
        forall|r: int, c: int|
            0 <= r < NEXTBOARDHEIGHT && 0 <= c < NEXTBOARDWIDTH && (forall|i: int, a: int, j: int|
                0 <= i < NEXTPIECES && #[trigger] block_at(pieces(bag)[pieces(bag).len() - 1 - i].0, a, j)
                    ==> !(r == 4 * i + 1 + a && c == 1 + j)) ==> #[trigger] cells(&panel)[r][c] is None,
{
    let ghost b = pieces(bag);
    let mut next_pieces_board = empty_board(NEXTBOARDHEIGHT as usize, NEXTBOARDWIDTH as usize);
    assert(b.len() == bag.len());
    for i in 0..NEXTPIECES
        invariant
            b == pieces(bag),
            b.len() == bag.len(),
            b.len() >= NEXTPIECES,
            forall|k: int| b.len() - NEXTPIECES <= k < b.len() ==> #[trigger] b[k] == standard_piece(b[k].1),
            cells(&next_pieces_board) == preview_cells(b, i as int),
    {
        let k = bag.len() - 1 - i;
        let piece_tmp = MovingTetromino {
            tetromino: bag[k].duplicate(),
            coords: (NEXTBOARDX + 1, i as u16 * 4 + NEXTBOARDY + 1),
        };
        proof {
            let p = b[k as int];
            assert(p == standard_piece(p.1));
            lemma_standard_blocks_on_top(p.1);
            lemma_preview_size(b, i as int);
            crate::piece::lemma_standard_piece_shape(p.1);
            let cs = preview_cells(b, i as int);
            assert forall|a: int, j: int| #[trigger] block_at(p.0, a, j) implies {
                let r = piece_tmp.coords.1 + a - NEXTBOARDY;
                let c = piece_tmp.coords.0 + j - NEXTBOARDX;
                0 <= r < cs.len() && 0 <= c < cs[r].len()
            } by {
            }
            assert(p.0[0].len() == p.0.len());
            assert(forall|q: int| 0 <= q < p.0.len() ==> #[trigger] p.0[q].len() >= p.0[0].len());
        }
        next_pieces_board = place_piece_in_board(&next_pieces_board, &piece_tmp, NEXTBOARDX, NEXTBOARDY);
    }
    proof {
        let pc = cells(&next_pieces_board);
        lemma_preview_slots(b, NEXTPIECES as int);
        lemma_preview_size(b, NEXTPIECES as int);
        assert forall|i: int, a: int, j: int|
            0 <= i < NEXTPIECES && #[trigger] block_at(b[b.len() - 1 - i].0, a, j) implies pc[4 * i + 1
                + a][1 + j] == Some(b[b.len() - 1 - i].1) by {
            assert(upcoming_piece(b, i) == b[b.len() - 1 - i]);
            assert(block_at(upcoming_piece(b, i).0, a, j));
        }
        assert forall|r: int, c: int|
            #![trigger pc[r][c]]
            0 <= r < NEXTBOARDHEIGHT && 0 <= c < NEXTBOARDWIDTH && (forall|i: int, a: int, j: int|
                0 <= i < NEXTPIECES && #[trigger] block_at(b[b.len() - 1 - i].0, a, j) ==> !(r == 4 * i
                    + 1 + a && c == 1 + j)) implies pc[r][c] is None by {
            assert forall|i: int| 0 <= i < NEXTPIECES implies !#[trigger] in_slot(b, i, r, c) by {
                if in_slot(b, i, r, c) {
                    assert(block_at(b[b.len() - 1 - i].0, r - 4 * i - 1, c - 1));
                }
            }
        }
    }
    next_pieces_board
}

/// The held-piece panel with the held piece drawn one cell in from its top
/// and left edges.
pub open spec fn held_cells(h: PieceView) -> Seq<Seq<Option<PieceColor>>> {
    placed(
        empty_grid(HELDBOARDHEIGHT as int, HELDBOARDWIDTH as int),
        h.0,
        h.1,
        HELDBOARDX + 1,
        HELDBOARDY + 1,
        HELDBOARDX as int,
        HELDBOARDY as int,
    )
}

/// Whether the held piece can be drawn on the held-piece panel: a piece
/// turned upright with blocks in its bottom row of four cannot.
pub fn held_panel_fits(held: &Tetromino) -> (b: bool)
    ensures
        b == placement_fits(
            empty_grid(HELDBOARDHEIGHT as int, HELDBOARDWIDTH as int),
            held@.0,
            HELDBOARDX + 1,
            HELDBOARDY + 1,
            HELDBOARDX as int,
            HELDBOARDY as int,
        ),
{
    let panel = empty_board(HELDBOARDHEIGHT as usize, HELDBOARDWIDTH as usize);
    let piece = MovingTetromino { tetromino: held.duplicate(), coords: (HELDBOARDX + 1, HELDBOARDY + 1) };
    piece_fits_board(&panel, &piece, HELDBOARDX, HELDBOARDY)
}

/// The held-piece panel showing the held piece.
pub fn held_panel(held: &Tetromino) -> (panel: Board)
    requires
        placement_fits(
            empty_grid(HELDBOARDHEIGHT as int, HELDBOARDWIDTH as int),
            held@.0,
            HELDBOARDX + 1,
            HELDBOARDY + 1,
            HELDBOARDX as int,
            HELDBOARDY as int,
        ),
    ensures
        cells(&panel) == held_cells(held@),
{
    let held_piece_board = empty_board(HELDBOARDHEIGHT as usize, HELDBOARDWIDTH as usize);
    let piece = MovingTetromino { tetromino: held.duplicate(), coords: (HELDBOARDX + 1, HELDBOARDY + 1) };
    place_piece_in_board(&held_piece_board, &piece, HELDBOARDX, HELDBOARDY)
}

} // verus!
