//! The core of a terminal editor for comma-delimited tables: the grid of
//! cells, the editing engine with its clipboard and its one level of undo,
//! and the viewport that keeps a focus, a selection and a scroll offset.
//!
//! The library reads no file and no key and draws nothing. Its surroundings
//! hand it the text of a file and the keys that were pressed, and it hands
//! back what is to be written and what is to be drawn.
//!
//! - [`table`] holds the cells and the grid, [`grid`] what can be said of a
//!   run of cells: what it shows at a coordinate and how far it reaches.
//! - [`delimited`] reads and writes the persisted format, and [`ods`] walks
//!   the content of a zipped XML spreadsheet document.
//! - [`document`] is the editing engine, and [`undo`] shows why its record
//!   gives every cell its text back.
//! - [`editor`] is the session that takes the keys, and [`layout`] tells
//!   what of the grid a terminal of some width shows.
//! - [`text`] and [`width`] hold what the library takes from the standard
//!   library and from `unicode-width` without proof.

pub mod delimited;
pub mod document;
pub mod editor;
pub mod grid;
pub mod layout;
pub mod ods;
pub mod table;
pub mod text;
pub mod undo;
pub mod width;

pub use document::Document;
pub use editor::{Editor, Position};
pub use table::{Cell, Table};
