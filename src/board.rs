//! The board model: collision geometry, fusing a piece in, and clearing
//! complete rows.
use crate::piece::{has_cell, is_piece_color, is_square, FallingPiece};
use vstd::prelude::*;

verus! {

/// The board: 20 rows of 10 cells, each 0 when empty or else a piece color.
pub type Board = [[u8; 10]; 20];

/// A cell that a piece cell may not take: below the bottom row, beside a
/// side wall, or already filled.
pub open spec fn blocked(b: Board, r: int, c: int) -> bool {
    r > 19 || c < 0 || c > 9 || b[r][c] != 0
}

/// The grid `g`, with its top-left cell at column `x` and row `y`, has an
/// occupied cell on a blocked cell.
pub open spec fn collides_at(b: Board, g: Seq<Seq<bool>>, x: int, y: int) -> bool {
    exists|i: int, j: int|
        0 <= i < g.len() && 0 <= j < g[i].len() && #[trigger] g[i][j] && blocked(b, y + i, x + j)
}

/// The piece has an occupied cell on board cell (r, c).
pub open spec fn covers(p: FallingPiece, r: int, c: int) -> bool {
    let i = r - p.ypos;
    let j = c - p.xpos;
    0 <= i < p.grid().len() && 0 <= j < p.grid()[i].len() && p.grid()[i][j]
}

pub open spec fn board_view(b: Board) -> Seq<Seq<u8>> {
    Seq::new(20, |r: int| b[r]@)
}

pub open spec fn board_colors_ok(b: Board) -> bool {
    forall|r: int, c: int| 0 <= r < 20 && 0 <= c < 10 ==> #[trigger] b[r][c] == 0 || is_piece_color(b[r][c])
}

/// The board with the piece's occupied cells written in its color.
pub open spec fn fused(b: Board, p: FallingPiece) -> Seq<Seq<u8>> {
    Seq::new(20, |r: int| Seq::new(10, |c: int| if covers(p, r, c) { p.color } else { b[r][c] }))
}

pub open spec fn row_complete(row: Seq<u8>) -> bool {
    forall|c: int| 0 <= c < row.len() ==> #[trigger] row[c] != 0
}

/// The rows that are not complete, top to bottom.
pub open spec fn kept_rows(rows: Seq<Seq<u8>>) -> Seq<Seq<u8>>
    decreases rows.len(),
{
    if rows.len() == 0 {
        seq![]
    } else {
        let rest = kept_rows(rows.drop_last());
        if row_complete(rows.last()) {
            rest
        } else {
            rest.push(rows.last())
        }
    }
}

/// How many rows are complete.
pub open spec fn completed_count(rows: Seq<Seq<u8>>) -> nat
    decreases rows.len(),
{
    if rows.len() == 0 {
        0
    } else {
        completed_count(rows.drop_last()) + if row_complete(rows.last()) {
            1nat
        } else {
            0nat
        }
    }
}

pub open spec fn empty_row() -> Seq<u8> {
    Seq::new(10, |c: int| 0u8)
}

/// The complete rows taken out, the rows above them dropped down, and as
/// many empty rows put in at the top.
pub open spec fn cleared(rows: Seq<Seq<u8>>) -> Seq<Seq<u8>> {
    Seq::new(completed_count(rows), |i: int| empty_row()) + kept_rows(rows)
}

/// Every row is either kept or counted as complete.
pub proof fn lemma_kept_count(rows: Seq<Seq<u8>>)
    ensures
        kept_rows(rows).len() + completed_count(rows) == rows.len(),
    decreases rows.len(),
{
    if rows.len() > 0 {
        lemma_kept_count(rows.drop_last());
    }
}


pub open spec fn row_colors_ok(row: Seq<u8>) -> bool {
    forall|c: int| 0 <= c < row.len() ==> #[trigger] row[c] == 0 || is_piece_color(row[c])
}

pub open spec fn rows_of(s: Seq<[u8; 10]>) -> Seq<Seq<u8>> {
    Seq::new(s.len(), |k: int| s[k]@)
}

/// The rows that are kept all come from the board.
pub(crate) proof fn lemma_kept_colors(rows: Seq<Seq<u8>>)
    requires
        forall|r: int| 0 <= r < rows.len() ==> row_colors_ok(#[trigger] rows[r]),
    ensures
        forall|k: int| 0 <= k < kept_rows(rows).len() ==> row_colors_ok(#[trigger] kept_rows(rows)[k]),
    decreases rows.len(),
{
    if rows.len() > 0 {
        let front = rows.drop_last();
        assert forall|r: int| 0 <= r < front.len() implies row_colors_ok(#[trigger] front[r]) by {
            assert(front[r] == rows[r]);
        }
        lemma_kept_colors(front);
        assert(row_colors_ok(rows[rows.len() - 1]));
        let rest = kept_rows(front);
        assert forall|k: int| 0 <= k < kept_rows(rows).len() implies row_colors_ok(
            #[trigger] kept_rows(rows)[k],
        ) by {
            if k < rest.len() {
                assert(kept_rows(rows)[k] == rest[k]);
            }
        }
    }
}

/// A grid that fits on the board, with an occupied cell, lies within reach
/// of it: its column and row are bounded.
pub(crate) proof fn lemma_fit_bounds(b: Board, g: Seq<Seq<bool>>, x: int, y: int)
    requires
        g.len() <= 4,
        is_square(g),
        has_cell(g),
        y >= 0,
        !collides_at(b, g, x, y),
    ensures
        -3 <= x <= 9,
        y <= 19,
{
    let (i, j) = choose|i: int, j: int| 0 <= i < g.len() && 0 <= j < g[i].len() && #[trigger] g[i][j];
    assert(!blocked(b, y + i, x + j));
}


/// Fusing a piece of a piece color keeps every cell empty or a piece color.
pub(crate) proof fn lemma_fused_colors(b: Board, p: FallingPiece)
    requires
        board_colors_ok(b),
        is_piece_color(p.color),
    ensures
        forall|b2: Board| board_view(b2) == fused(b, p) ==> board_colors_ok(b2),
{
    assert forall|b2: Board| board_view(b2) == fused(b, p) implies board_colors_ok(b2) by {
        assert forall|r: int, c: int| 0 <= r < 20 && 0 <= c < 10 implies #[trigger] b2[r][c] == 0
            || is_piece_color(b2[r][c]) by {
            assert(b2[r][c] == board_view(b2)[r][c]);
            assert(b2[r][c] == fused(b, p)[r][c]);
        }
    }
}

/// Whether each cell of the row is filled.
pub(crate) fn row_full(row: &[u8; 10]) -> (r: bool)
    ensures
        r == row_complete(row@),
{
    let mut c: usize = 0;
    while c < 10
        invariant
            c <= 10,
            forall|k: int| 0 <= k < c ==> #[trigger] row@[k] != 0,
        decreases 10 - c,
    {
        if row[c] == 0 {
            return false;
        }
        c += 1;
    }
    true
}

pub(crate) proof fn lemma_kept_append(a: Seq<Seq<u8>>, b: Seq<Seq<u8>>)
    ensures
        kept_rows(a + b) == kept_rows(a) + kept_rows(b),
        completed_count(a + b) == completed_count(a) + completed_count(b),
    decreases b.len(),
{
    if b.len() == 0 {
        assert(a + b =~= a);
        assert(kept_rows(a) + kept_rows(b) =~= kept_rows(a));
    } else {
        assert((a + b).drop_last() =~= a + b.drop_last());
        assert((a + b).last() == b.last());
        lemma_kept_append(a, b.drop_last());
        if !row_complete(b.last()) {
            assert((kept_rows(a) + kept_rows(b.drop_last())).push(b.last()) =~= kept_rows(a) + kept_rows(
                b.drop_last(),
            ).push(b.last()));
        }
    }
}

pub(crate) proof fn lemma_kept_none(s: Seq<Seq<u8>>)
    requires
        forall|r: int| 0 <= r < s.len() ==> !row_complete(#[trigger] s[r]),
    ensures
        kept_rows(s) == s,
        completed_count(s) == 0,
    decreases s.len(),
{
    if s.len() > 0 {
        let front = s.drop_last();
        assert forall|r: int| 0 <= r < front.len() implies !row_complete(#[trigger] front[r]) by {
            assert(front[r] == s[r]);
        }
        lemma_kept_none(front);
        assert(!row_complete(s[s.len() - 1]));
        assert(front.push(s.last()) =~= s);
    }
}

/// Clearing a single complete row scores one, drops every row above it by
/// one, keeps the rows below it, and leaves an empty row at the top.
pub proof fn lemma_clear_one_row(rows: Seq<Seq<u8>>, k: int)
    requires
        0 <= k < rows.len(),
        row_complete(rows[k]),
        forall|r: int| 0 <= r < rows.len() && r != k ==> !row_complete(#[trigger] rows[r]),
    ensures
        completed_count(rows) == 1,
        cleared(rows) == seq![empty_row()] + rows.subrange(0, k) + rows.subrange(k + 1, rows.len() as int),
{
    let above = rows.subrange(0, k);
    let below = rows.subrange(k + 1, rows.len() as int);
    let one = seq![rows[k]];
    assert(rows =~= above + one + below);
    assert forall|r: int| 0 <= r < above.len() implies !row_complete(#[trigger] above[r]) by {
        assert(above[r] == rows[r]);
    }
    assert forall|r: int| 0 <= r < below.len() implies !row_complete(#[trigger] below[r]) by {
        assert(below[r] == rows[k + 1 + r]);
    }
    lemma_kept_none(above);
    lemma_kept_none(below);
    assert(one.drop_last() =~= Seq::<Seq<u8>>::empty());
    assert(one.last() == rows[k]);
    assert(kept_rows(one.drop_last()) =~= Seq::<Seq<u8>>::empty());
    assert(completed_count(one.drop_last()) == 0);
    assert(kept_rows(one) =~= Seq::<Seq<u8>>::empty());
    assert(completed_count(one) == 1);
    lemma_kept_append(above, one);
    lemma_kept_append(above + one, below);
    assert(kept_rows(rows) =~= above + below);
    assert(cleared(rows) =~= seq![empty_row()] + above + below);
}

} // verus!
