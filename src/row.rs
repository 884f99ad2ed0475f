//! One screen line: its cells, its soft-wrap flag, and the byte sequences
//! that draw it on a terminal or bring a drawn line up to date.
use vstd::prelude::*;
use vstd::string::StringExecFns;
use crate::attrs::{Attrs, Color, default_attrs};
use crate::cell::{Cell, CellWidth, is_default_cell, is_visible};
use crate::escape::{push_cursor_forward, push_cursor_forward_one, push_erase_forward};
use crate::render::{
    clipped_width, cols_upto, content_width, content_width_upto, diff_end, diff_upto, drawn_at,
    fit_limit, full_upto,
    lemma_cols_monotone, lemma_content_width_bound, lemma_diff_cols, resized, skipped, text_upto,
    truncated,
};
use crate::text::{is_white_space, lemma_trim_trailing, trim_end, trim_trailing};

verus! {

/// One line of a terminal screen: cells in display-column order, and whether
/// the line continues onto the next one without a hard break.
#[derive(Debug)]
pub struct Row {
    cells: Vec<Cell>,
    wrapped: bool,
}

impl View for Row {
    type V = Seq<Cell>;

    closed spec fn view(&self) -> Seq<Cell> {
        self.cells@
    }
}

impl Clone for Row {
    fn clone(&self) -> (r: Row)
        ensures
            r@ == self@,
            r.is_wrapped() == self.is_wrapped(),
    {
        let r = Row { cells: self.cells.clone(), wrapped: self.wrapped };
        assert(r.cells@ =~= self.cells@);
        r
    }
}

impl Row {
    /// Whether the line continues onto the next one.
    pub closed spec fn is_wrapped(&self) -> bool {
        self.wrapped
    }

    /// A row of `cols` blank default cells, not wrapped.
    pub fn new(cols: u16) -> (r: Row)
        ensures
            r@.len() == cols,
            forall|i: int| 0 <= i < cols ==> is_default_cell(#[trigger] r@[i]),
            !r.is_wrapped(),
    {
        let mut cells: Vec<Cell> = Vec::new();
        let mut i: u16 = 0;
        while i < cols
            invariant
                i <= cols,
                cells@.len() == i,
                forall|j: int| 0 <= j < i ==> is_default_cell(#[trigger] cells@[j]),
            decreases cols - i,
        {
            cells.push(Cell::new());
            i += 1;
        }
        Row { cells, wrapped: false }
    }

    /// Blanks every cell with background `bgcolor` and clears the wrap flag;
    /// the number of columns stays.
    pub fn clear(&mut self, bgcolor: Color)
        ensures
            final(self)@.len() == old(self)@.len(),
            forall|i: int|
                0 <= i < final(self)@.len() ==> {
                    &&& (#[trigger] final(self)@[i]).text@.len() == 0
                    &&& final(self)@[i].width == CellWidth::Normal
                    &&& final(self)@[i].attrs == (Attrs {
                        bgcolor,
                        ..default_attrs()
                    })
                },
            !final(self).is_wrapped(),
    {
        let mut i: usize = 0;
        let n = self.cells.len();
        while i < n
            invariant
                n == self.cells@.len(),
                n == old(self)@.len(),
                i <= n,
                forall|j: int|
                    0 <= j < i ==> {
                        &&& (#[trigger] self.cells@[j]).text@.len() == 0
                        &&& self.cells@[j].width == CellWidth::Normal
                        &&& self.cells@[j].attrs == (Attrs {
                            bgcolor,
                            ..default_attrs()
                        })
                    },
            decreases n - i,
        {
            let mut c = Cell::new();
            c.clear(bgcolor);
            self.cells.set(i, c);
            i += 1;
        }
        self.wrapped = false;
    }

    /// The cell at column `col`, if the row has one.
    pub fn get(&self, col: u16) -> (r: Option<&Cell>)
        ensures
            col < self@.len() ==> r == Some(&self@[col as int]),
            col >= self@.len() ==> r.is_none(),
    {
        if (col as usize) < self.cells.len() {
            Some(&self.cells[col as usize])
        } else {
            None
        }
    }

    /// The cells of the row, to change in place; their number stays.
    pub fn cells_mut(&mut self) -> (r: &mut [Cell])
        ensures
            r@ == old(self)@,
            final(self)@ == final(r)@,
            final(self).is_wrapped() == old(self).is_wrapped(),
    {
        self.cells.as_mut_slice()
    }

    /// The cell at column `col` to change in place, if the row has one.
    pub fn get_mut(&mut self, col: u16) -> (r: Option<&mut Cell>)
        ensures
            final(self).is_wrapped() == old(self).is_wrapped(),
            match r {
                Some(c) => col < old(self)@.len() && *c == old(self)@[col as int] && final(self)@
                    == old(self)@.update(col as int, *final(c)),
                None => col >= old(self)@.len() && final(self)@ == old(self)@,
            },
    {
        if (col as usize) < self.cells.len() {
            Some(&mut self.cells[col as usize])
        } else {
            None
        }
    }

    /// Puts `cell` at index `i`, moving the cells from there one to the right.
    pub fn insert(&mut self, i: usize, cell: Cell)
        requires
            i <= old(self)@.len(),
        ensures
            final(self)@ == old(self)@.insert(i as int, cell),
            final(self).is_wrapped() == old(self).is_wrapped(),
    {
        self.cells.insert(i, cell);
    }

    /// Takes out the cell at index `i`, moving the cells after it one to the left.
    pub fn remove(&mut self, i: usize)
        requires
            i < old(self)@.len(),
        ensures
            final(self)@ == old(self)@.remove(i as int),
            final(self).is_wrapped() == old(self).is_wrapped(),
    {
        self.cells.remove(i);
    }

    /// Keeps the first `len` cells.
    pub fn truncate(&mut self, len: usize)
        ensures
            final(self)@ == truncated(old(self)@, len as int),
            final(self).is_wrapped() == old(self).is_wrapped(),
    {
        self.cells.truncate(len);
    }

    /// Makes the row `len` cells long: drops cells at the end, or adds copies
    /// of `cell` there.
    pub fn resize(&mut self, len: usize, cell: Cell)
        ensures
            final(self)@ == resized(old(self)@, len as int, cell),
            final(self).is_wrapped() == old(self).is_wrapped(),
    {
        self.cells.resize(len, cell);
        proof {
            if len > old(self)@.len() {
                assert(self.cells@ =~= resized(old(self)@, len as int, cell)) by {
                    assert(self.cells@.subrange(0, old(self)@.len() as int) == old(self)@);
                };
            } else {
                assert(self.cells@ =~= resized(old(self)@, len as int, cell));
            }
        }
    }

    /// Sets whether the line continues onto the next one.
    pub fn wrap(&mut self, wrap: bool)
        ensures
            final(self)@ == old(self)@,
            final(self).is_wrapped() == wrap,
    {
        self.wrapped = wrap;
    }

    /// Whether the line continues onto the next one.
    pub fn wrapped(&self) -> (r: bool)
        ensures
            r == self.is_wrapped(),
    {
        self.wrapped
    }

    /// Width of the part of the row from column `start` that must be drawn.
    pub fn content_width(&self, start: u16) -> (r: u16)
        requires
            content_width(self@, start as int) <= u16::MAX,
        ensures
            r == content_width(self@, start as int),
    {
        let s = start as usize;
        let mut end = self.cells.len();
        while end > s
            invariant
                s == start as usize,
                end <= self@.len(),
                content_width(self@, start as int) <= u16::MAX,
                content_width(self@, start as int) == content_width_upto(self@, start as int, end as int),
            decreases end,
        {
            let c = &self.cells[end - 1];
            if c.has_contents() || c.bgcolor() != Color::Default {
                return (end - s) as u16;
            }
            end -= 1;
        }
        0
    }

    /// The column before which the plain text of a query from `start` with
    /// `width` must fit.
    fn fit_end(&self, start: u16, width: u16) -> (r: usize)
        ensures
            r == fit_limit(self@, start as int, width as int),
    {
        let end = start as usize + width as usize;
        if end < self.cells.len() {
            end
        } else {
            self.cells.len()
        }
    }

    /// Plain text of columns `start..start + width` of the row, clipped to
    /// its content width: each glyph once, a space for each blank, and
    /// trailing whitespace removed. A wide glyph whose placeholder would fall
    /// outside the range or the row is left out, so the text never takes
    /// more than `width` columns.
    pub fn contents(&self, start: u16, width: u16) -> (r: String)
        requires
            content_width(self@, start as int) <= u16::MAX,
        ensures
            ({
                let hi = start + clipped_width(self@, start as int, width as int);
                let lim = fit_limit(self@, start as int, width as int);
                let text = text_upto(self@, start as int, lim, hi);
                &&& r@ == trim_trailing(text)
                &&& cols_upto(self@, start as int, lim, hi) <= width
                &&& r@.len() <= text.len()
                &&& r@ == text.subrange(0, r@.len() as int)
                &&& r@.len() == 0 || !is_white_space(r@.last())
            }),
    {
        let cw = self.content_width(start);
        let n: u16 = if width < cw {
            width
        } else {
            cw
        };
        let lo = start as usize;
        let hi = lo + n as usize;
        proof {
            lemma_content_width_bound(self@, lo as int, self@.len() as int);
        }
        let lim = self.fit_end(start, width);
        proof {
            crate::laws::lemma_contents_columns(self@, start as int, width as int);
        }
        let mut prev_was_wide = false;
        let mut contents = String::new();
        let mut i = lo;
        while i < hi
            invariant
                lo == start,
                hi == start + clipped_width(self@, start as int, width as int),
                lim == fit_limit(self@, start as int, width as int),
                lo <= i <= hi,
                hi == lo || hi <= self@.len(),
                prev_was_wide == skipped(self@, lo as int, i as int),
                contents@ == text_upto(self@, lo as int, lim as int, i as int),
            decreases hi - i,
        {
            if prev_was_wide {
                prev_was_wide = false;
            } else {
                let cell = &self.cells[i];
                let wide = cell.is_wide();
                if !wide || i + 1 < lim {
                    if cell.has_contents() {
                        contents.append(cell.contents());
                    } else {
                        proof {
                            reveal_strlit(" ");
                        }
                        contents.append(" ");
                    }
                }
                prev_was_wide = wide;
            }
            i += 1;
        }
        proof {
            lemma_trim_trailing(contents@);
        }
        trim_end(contents.as_str())
    }

    /// Terminal bytes that draw columns `start..start + width` of the row,
    /// clipped to its content width, on a terminal whose active attribute
    /// set is `attrs`; with the attribute set active afterwards and the
    /// number of columns drawn. A wide glyph whose placeholder would fall
    /// outside the range or the row is left out.
    pub fn contents_formatted(&self, start: u16, width: u16, attrs: Attrs) -> (r: (
        Vec<u8>,
        Attrs,
        u16,
    ))
        requires
            content_width(self@, start as int) <= u16::MAX,
            cols_upto(
                self@,
                start as int,
                self@.len() as int,
                start + clipped_width(self@, start as int, width as int),
            ) <= u16::MAX,
        ensures
            ({
                let hi = start + clipped_width(self@, start as int, width as int);
                let lim = self@.len() as int;
                &&& r.0@ == full_upto(self@, start as int, lim, hi, attrs).0
                &&& r.1 == full_upto(self@, start as int, lim, hi, attrs).1
                &&& r.2 == cols_upto(self@, start as int, lim, hi)
                &&& r.2 <= width + 1
            }),
    {
        let cw = self.content_width(start);
        let n: u16 = if width < cw {
            width
        } else {
            cw
        };
        let lo = start as usize;
        let hi = lo + n as usize;
        proof {
            lemma_content_width_bound(self@, lo as int, self@.len() as int);
        }
        let mut prev_was_wide = false;
        let mut contents: Vec<u8> = Vec::new();
        let mut prev_attrs = attrs;
        let mut cols: u16 = 0;
        let lim = self.cells.len();
        proof {
            crate::laws::lemma_drawing_columns(self@, start as int, width as int);
        }
        let mut i = lo;
        while i < hi
            invariant
                lo == start,
                hi == start + clipped_width(self@, start as int, width as int),
                lim == self@.len(),
                lo <= i <= hi,
                hi == lo || hi <= self@.len(),
                cols_upto(self@, lo as int, lim as int, hi as int) <= u16::MAX,
                prev_was_wide == skipped(self@, lo as int, i as int),
                contents@ == full_upto(self@, lo as int, lim as int, i as int, attrs).0,
                prev_attrs == full_upto(self@, lo as int, lim as int, i as int, attrs).1,
                cols == cols_upto(self@, lo as int, lim as int, i as int),
            decreases hi - i,
        {
            proof {
                lemma_cols_monotone(self@, lo as int, lim as int, i + 1, hi as int);
            }
            if prev_was_wide {
                prev_was_wide = false;
            } else {
                let cell = &self.cells[i];
                let wide = cell.is_wide();
                if !wide || i + 1 < lim {
                    let a = cell.attrs();
                    if prev_attrs != a {
                        let mut diff = a.escape_code_diff(&prev_attrs);
                        contents.append(&mut diff);
                        prev_attrs = a;
                    }
                    if cell.has_contents() {
                        push_str_bytes(&mut contents, cell.contents());
                    } else if cell.bgcolor() == Color::Default {
                        push_cursor_forward_one(&mut contents);
                    } else {
                        push_erase_forward(&mut contents);
                    }
                    cols += if wide {
                        2
                    } else {
                        1
                    };
                }
                prev_was_wide = wide;
            }
            i += 1;
        }
        (contents, prev_attrs, cols)
    }

    /// Terminal bytes that bring a terminal showing `prev` in columns
    /// `start..start + width` up to date with this row, on a terminal whose
    /// active attribute set is `attrs`. The range is clipped to this row's
    /// content width and to the length of `prev`. Runs of unchanged cells
    /// become one cursor movement, and a run at the end is left out. A wide
    /// glyph in the row's last column, which has no placeholder, is left out
    /// too. Returns
    /// the bytes, the attribute set active afterwards and the number of
    /// columns the cursor moved.
    pub fn contents_diff(&self, prev: &Row, start: u16, width: u16, attrs: Attrs) -> (r: (
        Vec<u8>,
        Attrs,
        u16,
    ))
        requires
            content_width(self@, start as int) <= u16::MAX,
            cols_upto(
                self@,
                start as int,
                self@.len() as int,
                diff_end(self@, prev@, start as int, width as int),
            ) <= u16::MAX,
        ensures
            ({
                let hi = diff_end(self@, prev@, start as int, width as int);
                let lim = self@.len() as int;
                &&& r.0@ == diff_upto(self@, prev@, start as int, lim, hi, attrs).0
                &&& r.1 == diff_upto(self@, prev@, start as int, lim, hi, attrs).1
                &&& r.2 == diff_upto(self@, prev@, start as int, lim, hi, attrs).2
                &&& r.2 <= width + 1
            }),
    {
        let cw = self.content_width(start);
        let n: u16 = if width < cw {
            width
        } else {
            cw
        };
        let lo = start as usize;
        let e = lo + n as usize;
        let plen = prev.cells.len();
        let hi = if e <= plen {
            e
        } else if lo <= plen {
            plen
        } else {
            lo
        };
        let lim = self.cells.len();
        proof {
            lemma_content_width_bound(self@, lo as int, self@.len() as int);
            crate::laws::lemma_drawing_columns(self@, start as int, width as int);
            lemma_cols_monotone(self@, lo as int, lim as int, hi as int, e as int);
        }
        let mut prev_was_wide = false;
        let mut skip: u16 = 0;
        let mut contents: Vec<u8> = Vec::new();
        let mut prev_attrs = attrs;
        let mut cols: u16 = 0;
        let mut i = lo;
        while i < hi
            invariant
                lo == start,
                hi == diff_end(self@, prev@, start as int, width as int),
                lim == self@.len(),
                lo <= i <= hi,
                hi == lo || (hi <= self@.len() && hi <= prev@.len()),
                cols_upto(self@, lo as int, lim as int, hi as int) <= u16::MAX,
                prev_was_wide == skipped(self@, lo as int, i as int),
                contents@ == diff_upto(self@, prev@, lo as int, lim as int, i as int, attrs).0,
                prev_attrs == diff_upto(self@, prev@, lo as int, lim as int, i as int, attrs).1,
                cols == diff_upto(self@, prev@, lo as int, lim as int, i as int, attrs).2,
                skip == diff_upto(self@, prev@, lo as int, lim as int, i as int, attrs).3,
            decreases hi - i,
        {
            proof {
                lemma_cols_monotone(self@, lo as int, lim as int, i + 1, hi as int);
                lemma_diff_cols(self@, prev@, lo as int, lim as int, i + 1, attrs);
            }
            if prev_was_wide {
                prev_was_wide = false;
            } else {
                let cell = &self.cells[i];
                let wide = cell.is_wide();
                if !wide || i + 1 < lim {
                    if cell.eq(&prev.cells[i]) {
                        skip += if wide {
                            2
                        } else {
                            1
                        };
                    } else {
                        if skip > 0 {
                            push_cursor_forward(&mut contents, skip);
                            cols += skip;
                            skip = 0;
                        }
                        let a = cell.attrs();
                        if prev_attrs != a {
                            let mut diff = a.escape_code_diff(&prev_attrs);
                            contents.append(&mut diff);
                            prev_attrs = a;
                        }
                        if cell.has_contents() {
                            push_str_bytes(&mut contents, cell.contents());
                        } else {
                            push_erase_forward(&mut contents);
                        }
                        cols += if wide {
                            2
                        } else {
                            1
                        };
                    }
                }
                prev_was_wide = wide;
            }
            i += 1;
        }
        proof {
            lemma_diff_cols(self@, prev@, lo as int, lim as int, hi as int, attrs);
        }
        (contents, prev_attrs, cols)
    }
}

/// Appends the UTF-8 encoding of `s` to `out`.
fn push_str_bytes(out: &mut Vec<u8>, s: &str)
    ensures
        final(out)@ == old(out)@ + vstd::utf8::encode_utf8(s@),
{
    let bytes = s.as_bytes();
    out.extend_from_slice(bytes);
    assert(final(out)@ =~= old(out)@ + vstd::utf8::encode_utf8(s@));
}

} // verus!
