//! Properties of the rendering queries and edits, stated over the models
//! that their contracts use.
use vstd::prelude::*;
use crate::attrs::{Attrs, Color};
use crate::cell::{Cell, has_text, is_visible, is_wide, same_cell};
use crate::escape::cursor_forward;
use crate::text::{is_white_space, lemma_trim_trailing, trim_trailing};
use crate::render::{
    cell_cols, clipped_width, cols_upto, content_width, content_width_upto, diff_cell_bytes,
    diff_upto, drawn_at, fit_limit, full_upto, resized, skipped, switch_attrs, text_upto, truncated,
};

verus! {

proof fn lemma_invisible_width(cells: Seq<Cell>, start: int, end: int)
    requires
        0 <= start,
        end <= cells.len(),
        forall|i: int| 0 <= i < cells.len() ==> !is_visible(#[trigger] cells[i]),
    ensures
        content_width_upto(cells, start, end) == 0,
    decreases end - start,
{
    if end > start {
        lemma_invisible_width(cells, start, end - 1);
    }
}

/// A row whose cells are all blank on the default background has content
/// width 0, so each query draws nothing: no text, no bytes, no columns, and
/// the active attribute set stays as it was.
pub proof fn lemma_blank_row_draws_nothing(
    cells: Seq<Cell>,
    prev: Seq<Cell>,
    start: int,
    width: int,
    a0: Attrs,
)
    requires
        0 <= start,
        forall|i: int|
            0 <= i < cells.len() ==> !has_text(#[trigger] cells[i]) && cells[i].attrs.bgcolor
                == Color::Default,
    ensures
        content_width(cells, start) == 0,
        ({
            let hi = start + clipped_width(cells, start, width);
            let lim = cells.len() as int;
            &&& text_upto(cells, start, fit_limit(cells, start, width), hi) == Seq::<char>::empty()
            &&& full_upto(cells, start, lim, hi, a0) == (Seq::<u8>::empty(), a0)
            &&& cols_upto(cells, start, lim, hi) == 0
            &&& diff_upto(cells, prev, start, lim, hi, a0) == (
                Seq::<u8>::empty(),
                a0,
                0int,
                0int,
            )
        }),
{
    assert forall|i: int| 0 <= i < cells.len() implies !is_visible(#[trigger] cells[i]) by {}
    lemma_invisible_width(cells, start, cells.len() as int);
    if width >= 0 {
        assert(clipped_width(cells, start, width) == 0);
    }
}

/// The text of any range takes at most `width` display columns: the
/// clipped range is no wider than asked, and a wide glyph is drawn only
/// when its placeholder lies inside the range and the row, so a glyph is
/// never separated from its placeholder.
pub proof fn lemma_contents_columns(cells: Seq<Cell>, start: int, width: int)
    requires
        0 <= start,
        0 <= width,
    ensures
        0 <= clipped_width(cells, start, width) <= width,
        clipped_width(cells, start, width) > 0 ==> start + clipped_width(cells, start, width)
            <= fit_limit(cells, start, width),
        cols_upto(
            cells,
            start,
            fit_limit(cells, start, width),
            start + clipped_width(cells, start, width),
        ) <= width,
        forall|j: int|
            start <= j < start + clipped_width(cells, start, width) && drawn_at(
                cells,
                start,
                fit_limit(cells, start, width),
                j,
            ) && is_wide(#[trigger] cells[j]) ==> j + 1 < start + width && j + 1 < cells.len(),
{
    let hi = start + clipped_width(cells, start, width);
    let lim = fit_limit(cells, start, width);
    crate::render::lemma_content_width_bound(cells, start, cells.len() as int);
    if hi > start {
        if hi < lim {
            lemma_cols_exact(cells, start, lim, hi);
        } else {
            lemma_cols_exact(cells, start, lim, hi - 1);
        }
    }
}

/// A full drawing or an update of a range takes the columns of the clipped
/// range, plus one at most: a wide glyph in the range's last column is drawn
/// whole, its placeholder just past the range. Only in the row's last
/// column, where no placeholder follows, is a wide glyph left out.
pub proof fn lemma_drawing_columns(cells: Seq<Cell>, start: int, width: int)
    requires
        0 <= start,
        0 <= width,
    ensures
        0 <= clipped_width(cells, start, width) <= width,
        clipped_width(cells, start, width) > 0 ==> start + clipped_width(cells, start, width)
            <= cells.len(),
        cols_upto(
            cells,
            start,
            cells.len() as int,
            start + clipped_width(cells, start, width),
        ) <= clipped_width(cells, start, width) + 1,
{
    let hi = start + clipped_width(cells, start, width);
    let lim = cells.len() as int;
    crate::render::lemma_content_width_bound(cells, start, cells.len() as int);
    if hi > start {
        if hi < lim {
            lemma_cols_exact(cells, start, lim, hi);
        } else {
            lemma_cols_exact(cells, start, lim, hi - 1);
        }
    }
}

/// The columns of the cells drawn in `cells[lo..i]`, by a walk that must
/// fit before `lim`: exact while the walk has not reached `lim`, and at
/// `lim` one less when a wide glyph in the last column was left out.
pub proof fn lemma_cols_exact(cells: Seq<Cell>, lo: int, lim: int, i: int)
    requires
        lo <= i < lim,
    ensures
        cols_upto(cells, lo, lim, i) == (i - lo) + if skipped(cells, lo, i) {
            1int
        } else {
            0int
        },
    decreases i - lo,
{
    if i > lo {
        lemma_cols_exact(cells, lo, lim, i - 1);
    }
}

proof fn lemma_diff_unchanged_prefix(
    cur: Seq<Cell>,
    prev: Seq<Cell>,
    lo: int,
    lim: int,
    i: int,
    a0: Attrs,
)
    requires
        lo <= i <= cur.len(),
        i <= prev.len(),
        forall|j: int|
            lo <= j < i && drawn_at(cur, lo, lim, j) ==> same_cell(#[trigger] cur[j], prev[j]),
    ensures
        diff_upto(cur, prev, lo, lim, i, a0) == (
            Seq::<u8>::empty(),
            a0,
            0int,
            cols_upto(cur, lo, lim, i),
        ),
    decreases i - lo,
{
    if i > lo {
        lemma_diff_unchanged_prefix(cur, prev, lo, lim, i - 1, a0);
    }
}

/// An update of a row over itself emits nothing, leaves the active
/// attribute set as it was, and moves the cursor by no columns.
pub proof fn lemma_diff_self_is_empty(cells: Seq<Cell>, start: int, lim: int, end: int, a0: Attrs)
    requires
        0 <= start <= end <= cells.len(),
    ensures
        diff_upto(cells, cells, start, lim, end, a0).0 == Seq::<u8>::empty(),
        diff_upto(cells, cells, start, lim, end, a0).1 == a0,
        diff_upto(cells, cells, start, lim, end, a0).2 == 0,
{
    lemma_diff_unchanged_prefix(cells, cells, start, lim, end, a0);
}

proof fn lemma_diff_unchanged_suffix(
    cur: Seq<Cell>,
    prev: Seq<Cell>,
    lo: int,
    lim: int,
    m: int,
    i: int,
    a0: Attrs,
)
    requires
        lo <= m <= i <= cur.len(),
        i <= prev.len(),
        forall|j: int|
            m <= j < i && drawn_at(cur, lo, lim, j) ==> same_cell(#[trigger] cur[j], prev[j]),
    ensures
        diff_upto(cur, prev, lo, lim, i, a0).0 == diff_upto(cur, prev, lo, lim, m, a0).0,
        diff_upto(cur, prev, lo, lim, i, a0).1 == diff_upto(cur, prev, lo, lim, m, a0).1,
        diff_upto(cur, prev, lo, lim, i, a0).2 == diff_upto(cur, prev, lo, lim, m, a0).2,
    decreases i - m,
{
    if i > m {
        lemma_diff_unchanged_suffix(cur, prev, lo, lim, m, i - 1, a0);
    }
}

/// When the rows differ, among the cells that an update draws, only in
/// column `start + k` of the range, the update moves the cursor over the
/// `k` columns before it in one step (none when `k` is 0), draws that cell,
/// and emits nothing after it; the cursor moves `k` columns plus those of
/// the cell.
pub proof fn lemma_diff_single_change(
    cur: Seq<Cell>,
    prev: Seq<Cell>,
    start: int,
    lim: int,
    end: int,
    k: int,
    a0: Attrs,
)
    requires
        0 <= start,
        0 <= k,
        start + k < end,
        end <= cur.len(),
        end <= prev.len(),
        end <= lim,
        drawn_at(cur, start, lim, start + k),
        !same_cell(cur[start + k], prev[start + k]),
        forall|j: int|
            start <= j < end && j != start + k && drawn_at(cur, start, lim, j) ==> same_cell(
                #[trigger] cur[j],
                prev[j],
            ),
    ensures
        diff_upto(cur, prev, start, lim, end, a0).0 == (if k > 0 {
            cursor_forward(k as nat)
        } else {
            Seq::<u8>::empty()
        }) + switch_attrs(cur[start + k], a0) + diff_cell_bytes(cur[start + k]),
        diff_upto(cur, prev, start, lim, end, a0).1 == cur[start + k].attrs,
        diff_upto(cur, prev, start, lim, end, a0).2 == k + cell_cols(cur[start + k]),
{
    let p = start + k;
    lemma_diff_unchanged_prefix(cur, prev, start, lim, p, a0);
    lemma_cols_exact(cur, start, lim, p);
    assert(diff_upto(cur, prev, start, lim, p + 1, a0).0 =~= (if k > 0 {
        cursor_forward(k as nat)
    } else {
        Seq::<u8>::empty()
    }) + switch_attrs(cur[p], a0) + diff_cell_bytes(cur[p]));
    lemma_diff_unchanged_suffix(cur, prev, start, lim, p + 1, end, a0);
}

proof fn lemma_blank_text(cells: Seq<Cell>, lo: int, lim: int, i: int)
    requires
        0 <= lo <= i <= cells.len(),
        forall|j: int| lo <= j < i ==> !has_text(#[trigger] cells[j]),
    ensures
        forall|k: int|
            0 <= k < text_upto(cells, lo, lim, i).len() ==> #[trigger] text_upto(
                cells,
                lo,
                lim,
                i,
            )[k] == ' ',
    decreases i - lo,
{
    if i > lo {
        lemma_blank_text(cells, lo, lim, i - 1);
        let t = text_upto(cells, lo, lim, i - 1);
        assert forall|k: int| 0 <= k < text_upto(cells, lo, lim, i).len() implies #[trigger] text_upto(
            cells,
            lo,
            lim,
            i,
        )[k] == ' ' by {
            if k < t.len() {
                assert(text_upto(cells, lo, lim, i)[k] == t[k]);
            }
        }
    }
}

/// Where every cell in the range is blank, whatever its background, the
/// plain text is empty once trailing white space is trimmed.
pub proof fn lemma_blank_range_text_is_empty(cells: Seq<Cell>, start: int, width: int)
    requires
        0 <= start,
        0 <= width,
        forall|j: int|
            start <= j < start + clipped_width(cells, start, width) ==> !has_text(
                #[trigger] cells[j],
            ),
    ensures
        trim_trailing(
            text_upto(
                cells,
                start,
                fit_limit(cells, start, width),
                start + clipped_width(cells, start, width),
            ),
        ) == Seq::<char>::empty(),
{
    let hi = start + clipped_width(cells, start, width);
    let lim = fit_limit(cells, start, width);
    crate::render::lemma_content_width_bound(cells, start, cells.len() as int);
    let t = text_upto(cells, start, lim, hi);
    if hi > start {
        lemma_blank_text(cells, start, lim, hi);
    }
    lemma_trim_trailing(t);
    let r = trim_trailing(t);
    if r.len() > 0 {
        assert(r.last() == t[r.len() - 1]);
        assert(is_white_space(' '));
    }
}

/// Growing or cutting a row to `len` and then cutting it to `len2` gives the
/// first `len2` cells of the resized row.
pub proof fn lemma_resize_then_truncate(cells: Seq<Cell>, len: int, fill: Cell, len2: int)
    requires
        0 <= len2 <= len,
    ensures
        resized(cells, len, fill).len() == len,
        truncated(resized(cells, len, fill), len2).len() == len2,
        truncated(resized(cells, len, fill), len2) == resized(cells, len, fill).subrange(0, len2),
{
}

} // verus!
