use vstd::prelude::*;

verus! {

/// Why no table can be made of a document.
#[derive(Debug, PartialEq)]
pub enum TableError {
    /// The page number is zero, or the rows before the page cannot be
    /// counted in a `usize`.
    InvalidPage,
    /// The text is not a document; the message is the parser's.
    Parse(String),
    /// The document is not an array.
    NotAnArray,
    /// The array is empty, so no record tells the columns.
    EmptyDocument,
    /// The first element of the array is not a record.
    FirstNotRecord,
    /// Rows were to be sorted by a field that one of them does not have.
    MissingSortColumn,
    /// The table could not be written out; the message says why.
    Render(String),
}

} // verus!
