//! A verified document model for a terminal grid editor.
//!
//! The grid is a growable sequence of rows of typed cells.  Cells hold a
//! tagged value (integer, float, text, boolean or empty) that is edited one
//! character at a time; rows and the document grow on demand when a
//! coordinate beyond the current bounds is written; content search walks the
//! grid in either direction; and the grid is persisted as delimiter-separated
//! text, one row per line.
//!
//! Floating-point values cannot appear in verified code, so a float cell
//! carries the canonical decimal rendering of its value as a string; the
//! numeric parse that promotes a marker-prefixed text cell to a float is
//! performed by the (unverified) interactive shell, which hands the rendering
//! back through [`cell::DataType::promote`].

pub mod cell;
pub mod document;
pub mod editor;
pub mod row;
pub mod terminal;
pub mod text;

pub use cell::Cell;
pub use cell::DataType;
pub use document::Document;
pub use editor::Position;
pub use editor::SearchDirection;
pub use editor::Status;
pub use row::Row;
pub use terminal::Size;
pub use terminal::Terminal;
