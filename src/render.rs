//! What the rendering queries of a row produce, stated over its cell sequence.
//!
//! Each query walks the columns of a range from left to right and leaves out
//! the placeholder that follows a drawn wide glyph.
use vstd::prelude::*;
use vstd::utf8::encode_utf8;
use crate::attrs::{Attrs, Color, attrs_diff};
use crate::cell::{Cell, has_text, is_visible, is_wide, same_cell};
use crate::escape::{cursor_forward, cursor_forward_one, erase_forward};

verus! {

/// The walk that starts at column `lo` does not draw column `i`: it is the
/// placeholder after a wide glyph that was drawn.
pub open spec fn skipped(cells: Seq<Cell>, lo: int, i: int) -> bool
    decreases i - lo,
{
    if i <= lo {
        false
    } else {
        !skipped(cells, lo, i - 1) && is_wide(cells[i - 1])
    }
}

/// Width of the part of `cells[start..end]` that must be drawn: up to and
/// including the last cell in it with a glyph or a background of its own,
/// and 0 when there is none.
pub open spec fn content_width_upto(cells: Seq<Cell>, start: int, end: int) -> int
    decreases end - start,
{
    if end <= start {
        0
    } else if is_visible(cells[end - 1]) {
        end - start
    } else {
        content_width_upto(cells, start, end - 1)
    }
}

/// Width of the part of the row from column `start` that must be drawn.
pub open spec fn content_width(cells: Seq<Cell>, start: int) -> int {
    content_width_upto(cells, start, cells.len() as int)
}

/// The first `len` cells of `cells`, or all of them when there are fewer.
pub open spec fn truncated(cells: Seq<Cell>, len: int) -> Seq<Cell> {
    if len <= cells.len() {
        cells.subrange(0, len)
    } else {
        cells
    }
}

/// `cells` cut to `len` cells, or padded to `len` with copies of `fill`.
pub open spec fn resized(cells: Seq<Cell>, len: int, fill: Cell) -> Seq<Cell> {
    if len <= cells.len() {
        cells.subrange(0, len)
    } else {
        cells + Seq::new((len - cells.len()) as nat, |j: int| fill)
    }
}

/// The walk that starts at column `lo` and must fit before column `lim`
/// draws column `j`: it is no placeholder of a drawn glyph, and when it is a
/// wide glyph, its placeholder lies before `lim`.
pub open spec fn drawn_at(cells: Seq<Cell>, lo: int, lim: int, j: int) -> bool {
    !skipped(cells, lo, j) && (!is_wide(cells[j]) || j + 1 < lim)
}

/// The column before which the plain text of a query from `start` with
/// `width` must fit: the end of the requested range or of the row, whichever
/// comes first. The full drawing and the update only need to fit in the row.
pub open spec fn fit_limit(cells: Seq<Cell>, start: int, width: int) -> int {
    if start + width < cells.len() {
        start + width
    } else {
        cells.len() as int
    }
}

/// Display columns that a drawn cell takes.
pub open spec fn cell_cols(c: Cell) -> int {
    if is_wide(c) {
        2
    } else {
        1
    }
}

/// Display columns that the drawn cells of `cells[lo..i]` take.
pub open spec fn cols_upto(cells: Seq<Cell>, lo: int, lim: int, i: int) -> int
    decreases i - lo,
{
    if i <= lo {
        0
    } else if !drawn_at(cells, lo, lim, i - 1) {
        cols_upto(cells, lo, lim, i - 1)
    } else {
        cols_upto(cells, lo, lim, i - 1) + cell_cols(cells[i - 1])
    }
}

/// Plain text of a cell: its glyph, or a space for a blank.
pub open spec fn cell_text(c: Cell) -> Seq<char> {
    if has_text(c) {
        c.text@
    } else {
        seq![' ']
    }
}

/// Plain text of the drawn cells of `cells[lo..i]`, before trimming.
pub open spec fn text_upto(cells: Seq<Cell>, lo: int, lim: int, i: int) -> Seq<char>
    decreases i - lo,
{
    if i <= lo {
        seq![]
    } else if !drawn_at(cells, lo, lim, i - 1) {
        text_upto(cells, lo, lim, i - 1)
    } else {
        text_upto(cells, lo, lim, i - 1) + cell_text(cells[i - 1])
    }
}

/// The bytes that switch from attribute set `active` to the one of `c`.
pub open spec fn switch_attrs(c: Cell, active: Attrs) -> Seq<u8> {
    if c.attrs != active {
        attrs_diff(c.attrs, active)
    } else {
        seq![]
    }
}

/// Content bytes of a cell in a full drawing: its glyph, else a cursor
/// step over a default background, else an erase that paints the background.
pub open spec fn full_cell_bytes(c: Cell) -> Seq<u8> {
    if has_text(c) {
        encode_utf8(c.text@)
    } else if c.attrs.bgcolor == Color::Default {
        cursor_forward_one()
    } else {
        erase_forward()
    }
}

/// Content bytes of a changed cell in an update: its glyph, else an erase.
pub open spec fn diff_cell_bytes(c: Cell) -> Seq<u8> {
    if has_text(c) {
        encode_utf8(c.text@)
    } else {
        erase_forward()
    }
}

/// Bytes and final attribute set of a full drawing of `cells[lo..i]` on a
/// terminal whose active attribute set is `a0`.
pub open spec fn full_upto(cells: Seq<Cell>, lo: int, lim: int, i: int, a0: Attrs) -> (Seq<u8>, Attrs)
    decreases i - lo,
{
    if i <= lo {
        (seq![], a0)
    } else {
        let (b, a) = full_upto(cells, lo, lim, i - 1, a0);
        if !drawn_at(cells, lo, lim, i - 1) {
            (b, a)
        } else {
            let c = cells[i - 1];
            (b + switch_attrs(c, a) + full_cell_bytes(c), c.attrs)
        }
    }
}

/// State of an update of `cur[lo..i]` over `prev[lo..i]` from active set
/// `a0`: bytes so far, active attribute set, columns the cursor moved, and
/// columns of unchanged cells not yet skipped over.
pub open spec fn diff_upto(
    cur: Seq<Cell>,
    prev: Seq<Cell>,
    lo: int,
    lim: int,
    i: int,
    a0: Attrs,
) -> (
    Seq<u8>,
    Attrs,
    int,
    int,
)
    decreases i - lo,
{
    if i <= lo {
        (seq![], a0, 0, 0)
    } else {
        let (b, a, k, s) = diff_upto(cur, prev, lo, lim, i - 1, a0);
        let c = cur[i - 1];
        if !drawn_at(cur, lo, lim, i - 1) {
            (b, a, k, s)
        } else if same_cell(c, prev[i - 1]) {
            (b, a, k, s + cell_cols(c))
        } else {
            let flushed = if s > 0 { b + cursor_forward(s as nat) } else { b };
            (flushed + switch_attrs(c, a) + diff_cell_bytes(c), c.attrs, k + s + cell_cols(c), 0)
        }
    }
}

/// The number of columns that a query from `start` with `width` covers.
pub open spec fn clipped_width(cells: Seq<Cell>, start: int, width: int) -> int {
    let cw = content_width(cells, start);
    if width < cw { width } else { cw }
}

/// The last column (exclusive) that an update of `cur` over `prev` visits.
pub open spec fn diff_end(cur: Seq<Cell>, prev: Seq<Cell>, start: int, width: int) -> int {
    let e = start + clipped_width(cur, start, width);
    if e <= prev.len() {
        e
    } else if start <= prev.len() {
        prev.len() as int
    } else {
        start
    }
}

/// The columns of the drawn cells only grow as the walk goes on.
pub proof fn lemma_cols_monotone(cells: Seq<Cell>, lo: int, lim: int, i: int, j: int)
    requires
        i <= j,
    ensures
        cols_upto(cells, lo, lim, i) <= cols_upto(cells, lo, lim, j),
    decreases j - i,
{
    if i < j {
        lemma_cols_monotone(cells, lo, lim, i, j - 1);
    }
}

/// The content width of a range is at most the range's length.
pub proof fn lemma_content_width_bound(cells: Seq<Cell>, start: int, end: int)
    ensures
        0 <= content_width_upto(cells, start, end),
        content_width_upto(cells, start, end) <= if end > start { end - start } else { 0 },
    decreases end - start,
{
    if end > start {
        lemma_content_width_bound(cells, start, end - 1);
    }
}

/// Columns moved and columns pending of an update add up to the columns of
/// the cells visited.
pub proof fn lemma_diff_cols(
    cur: Seq<Cell>,
    prev: Seq<Cell>,
    lo: int,
    lim: int,
    i: int,
    a0: Attrs,
)
    ensures
        diff_upto(cur, prev, lo, lim, i, a0).2 + diff_upto(cur, prev, lo, lim, i, a0).3 == cols_upto(
            cur,
            lo,
            lim,
            i,
        ),
        diff_upto(cur, prev, lo, lim, i, a0).2 >= 0,
        diff_upto(cur, prev, lo, lim, i, a0).3 >= 0,
    decreases i - lo,
{
    if i > lo {
        lemma_diff_cols(cur, prev, lo, lim, i - 1, a0);
    }
}

} // verus!
