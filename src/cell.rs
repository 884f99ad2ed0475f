//! One display column of a terminal screen.
use vstd::prelude::*;
use crate::attrs::{Attrs, Color, default_attrs};

verus! {

/// How many display columns a cell's glyph takes.
#[derive(Clone, Copy, Debug, PartialEq, Eq, Structural)]
pub enum CellWidth {
    /// One column.
    Normal,
    /// Two columns: this cell and the placeholder after it.
    Wide,
    /// The placeholder that follows a wide cell; it has no glyph of its own.
    WideContinuation,
}

/// A display column: its glyph text (empty for a blank), width class and
/// attributes.
#[derive(Debug)]
pub struct Cell {
    pub text: String,
    pub width: CellWidth,
    pub attrs: Attrs,
}

/// Two cells are equal when glyph text, width class and attributes are.
pub open spec fn same_cell(a: Cell, b: Cell) -> bool {
    a.text@ == b.text@ && a.width == b.width && a.attrs == b.attrs
}

/// A blank cell with the default attributes.
pub open spec fn is_default_cell(c: Cell) -> bool {
    c.text@.len() == 0 && c.width == CellWidth::Normal && c.attrs == default_attrs()
}

/// The cell has glyph text.
pub open spec fn has_text(c: Cell) -> bool {
    c.text@.len() > 0
}

/// The cell is a wide glyph.
pub open spec fn is_wide(c: Cell) -> bool {
    c.width == CellWidth::Wide
}

/// The cell must be drawn: it has a glyph, or a background of its own.
pub open spec fn is_visible(c: Cell) -> bool {
    has_text(c) || c.attrs.bgcolor != Color::Default
}

impl Clone for Cell {
    fn clone(&self) -> (r: Cell)
        ensures
            r == *self,
    {
        Cell { text: self.text.clone(), width: self.width, attrs: self.attrs }
    }
}

impl PartialEq for Cell {
    fn eq(&self, other: &Cell) -> (r: bool)
        ensures
            r == same_cell(*self, *other),
    {
        self.text == other.text && self.width == other.width && self.attrs == other.attrs
    }
}

impl vstd::std_specs::cmp::PartialEqSpecImpl for Cell {
    open spec fn obeys_eq_spec() -> bool {
        true
    }

    open spec fn eq_spec(&self, other: &Cell) -> bool {
        same_cell(*self, *other)
    }
}

impl Default for Cell {
    fn default() -> (r: Cell)
        ensures
            is_default_cell(r),
    {
        Cell::new()
    }
}

impl Cell {
    /// A blank cell with the default attributes.
    pub fn new() -> (r: Cell)
        ensures
            is_default_cell(r),
    {
        Cell { text: String::new(), width: CellWidth::Normal, attrs: Attrs::new() }
    }

    /// A cell that shows `text` with the given width class and attributes.
    pub fn with_text(text: &str, width: CellWidth, attrs: Attrs) -> (r: Cell)
        ensures
            r.text@ == text@,
            r.width == width,
            r.attrs == attrs,
    {
        Cell { text: text.to_owned(), width, attrs }
    }

    /// The glyph text; empty for a blank cell.
    pub fn contents(&self) -> (r: &str)
        ensures
            r@ == self.text@,
    {
        self.text.as_str()
    }

    pub fn has_contents(&self) -> (r: bool)
        ensures
            r == has_text(*self),
    {
        !self.text.as_str().is_empty()
    }

    pub fn is_wide(&self) -> (r: bool)
        ensures
            r == is_wide(*self),
    {
        self.width == CellWidth::Wide
    }

    pub fn is_wide_continuation(&self) -> (r: bool)
        ensures
            r == (self.width == CellWidth::WideContinuation),
    {
        self.width == CellWidth::WideContinuation
    }

    pub fn attrs(&self) -> (r: Attrs)
        ensures
            r == self.attrs,
    {
        self.attrs
    }

    pub fn bgcolor(&self) -> (r: Color)
        ensures
            r == self.attrs.bgcolor,
    {
        self.attrs.bgcolor
    }

    /// Makes the cell a normal-width blank with default attributes but for
    /// the background `bgcolor`.
    pub fn clear(&mut self, bgcolor: Color)
        ensures
            final(self).text@.len() == 0,
            final(self).width == CellWidth::Normal,
            final(self).attrs == (Attrs { bgcolor, ..default_attrs() }),
    {
        self.text = String::new();
        self.width = CellWidth::Normal;
        let mut attrs = Attrs::new();
        attrs.bgcolor = bgcolor;
        self.attrs = attrs;
    }
}

} // verus!
