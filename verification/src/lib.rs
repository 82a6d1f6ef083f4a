//! Tables of records.
//!
//! A document is an array of records: objects whose fields are the columns
//! of a table. This library selects the rows of such a document, sorts them
//! by a column, turns each value into the text of a cell, and draws the
//! table. What each step returns is stated in its contract and proved.
//!
//! - [`value`]: the nodes of a document, and their mathematical content.
//! - [`json`]: documents read from text.
//! - [`columns`]: the columns of a table.
//! - [`select`]: the rows of a table.
//! - [`order`]: the order of two values, and of two records.
//! - [`sort`]: a stable sort of the rows.
//! - [`cell`]: the text of a cell, of a row and of the header.
//! - [`table`]: the table that a set of options asks for.
//! - [`render`]: the table drawn as text.
//! - [`text`]: what the others need of text.
//! - [`error`]: why there may be no table.

pub mod cell;
pub mod columns;
pub mod error;
pub mod json;
pub mod order;
pub mod render;
pub mod select;
pub mod sort;
pub mod table;
pub mod text;
pub mod value;
