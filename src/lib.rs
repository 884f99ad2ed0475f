//! A terminal screen line and the byte sequences that draw it: in full, or
//! as the smallest update over the line a terminal shows already.
pub mod attrs;
pub mod cell;
pub mod escape;
pub mod laws;
pub mod render;
pub mod row;
pub mod terminal;
pub mod text;

pub use attrs::{Attrs, Color};
pub use cell::{Cell, CellWidth};
pub use row::Row;
