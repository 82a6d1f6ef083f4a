use crate::text::{
    decimal, lemma_without_marker_removes_occurrences, outside_markers, signed_text, strip_marker,
    unsigned_text, without_marker,
};
use crate::value::{lookup, Fields, Json, Record, Node};
use vstd::prelude::*;
use vstd::string::*;

verus! {

/// What a cell shows of `value`, the content of the field `column` of a
/// record, or `None` where the record has no such field.
pub open spec fn cell_text(column: Seq<char>, value: Option<Json>) -> Seq<char> {
    match value {
        None => Seq::empty(),
        Some(Json::Null) => "null"@,
        Some(Json::Bool(b)) => if b {
            "true"@
        } else {
            "false"@
        },
        Some(Json::Float64 { text, .. }) => text,
        Some(Json::Int64(i)) => decimal(i as int),
        Some(Json::UInt64(u)) => decimal(u as int),
        Some(Json::Str(s)) => if column == "name"@ {
            without_marker(s)
        } else {
            s
        },
        Some(Json::Array(_)) => "not displayable"@,
        Some(Json::Object(_)) => "not displayable"@,
    }
}

/// The content of `value`, where there is one.
pub open spec fn content_of(value: Option<&Node>) -> Option<Json> {
    match value {
        Some(v) => Some(v@),
        None => None,
    }
}

/// The cells of the row that stands at `position`, counted from 1: the
/// position, then what the record holds in each of `columns`.
pub open spec fn row_cells(position: nat, fields: Fields, columns: Seq<Seq<char>>) -> Seq<
    Seq<char>,
> {
    seq![decimal(position as int)] + Seq::new(
        columns.len(),
        |j: int| cell_text(columns[j], lookup(fields, columns[j])),
    )
}

/// The cells of the header: `index`, then the names of the columns.
pub open spec fn header_cells(columns: Seq<Seq<char>>) -> Seq<Seq<char>> {
    seq!["index"@] + columns
}

/// A null is shown as `null`, and a value that is missing as an empty cell,
/// whatever the column is.
pub proof fn lemma_null_and_missing_cells(column: Seq<char>)
    ensures
        cell_text(column, Some(Json::Null)) == "null"@,
        cell_text(column, None) == Seq::<char>::empty(),
{
}

/// In the column `name` a text is shown without its occurrences of ` {}`
/// and with all the rest of it; in any other column it is shown as it is.
pub proof fn lemma_text_cells(column: Seq<char>, text: Seq<char>)
    ensures
        column == "name"@ ==> cell_text(column, Some(Json::Str(text))) == outside_markers(text, 0),
        column != "name"@ ==> cell_text(column, Some(Json::Str(text))) == text,
{
    lemma_without_marker_removes_occurrences(text);
}

/// The text that a cell shows for `value`, the content of the field
/// `column`. A field that the record does not have gives an empty cell, a
/// null `null`, a boolean `true` or `false`, a number its decimal form. A
/// text is shown as it is, but in the column `name`, where it is shown without
/// its occurrences of ` {}`. An array or an object gives `not displayable`.
pub fn format_cell(column: &str, value: Option<&Node>) -> (cell: String)
    ensures
        cell@ == cell_text(column@, content_of(value)),
{
    match value {
        None => String::new(),
        Some(Node::Null) => String::from_str("null"),
        Some(Node::Bool(b)) => {
            if *b {
                String::from_str("true")
            } else {
                String::from_str("false")
            }
        },
        Some(Node::Float64(x)) => x.text.clone(),
        Some(Node::Int64(i)) => signed_text(*i),
        Some(Node::UInt64(u)) => unsigned_text(*u),
        Some(Node::Str(s)) => {
            if String::from_str(column) == String::from_str("name") {
                strip_marker(s.as_str())
            } else {
                s.clone()
            }
        },
        Some(Node::Array(_)) => String::from_str("not displayable"),
        Some(Node::Object(_)) => String::from_str("not displayable"),
    }
}

/// The cells of the header of a table with the columns `columns`.
pub fn header_row(columns: &Vec<String>) -> (cells: Vec<String>)
    ensures
        cells.deep_view() == header_cells(columns.deep_view()),
{
    let mut cells: Vec<String> = Vec::new();
    cells.push(String::from_str("index"));
    let mut j: usize = 0;
    while j < columns.len()
        invariant
            j <= columns@.len(),
            cells@.len() == j + 1,
            cells@[0]@ == "index"@,
            forall|k: int| 0 <= k < j ==> cells@[k + 1]@ == columns@[k]@,
        decreases columns@.len() - j,
    {
        cells.push(columns[j].clone());
        j += 1;
    }
    proof {
        assert(cells.deep_view() =~= header_cells(columns.deep_view()));
    }
    cells
}

/// The cells of the row that shows `record` at `position`, counted from 1.
pub fn display_row(position: usize, record: &Record, columns: &Vec<String>) -> (cells: Vec<
    String,
>)
    ensures
        cells.deep_view() == row_cells(position as nat, record@, columns.deep_view()),
{
    let mut cells: Vec<String> = Vec::new();
    cells.push(unsigned_text(position as u64));
    let mut j: usize = 0;
    while j < columns.len()
        invariant
            j <= columns@.len(),
            cells@.len() == j + 1,
            cells@[0]@ == decimal(position as int),
            forall|k: int|
                0 <= k < j ==> cells@[k + 1]@ == cell_text(
                    columns@[k]@,
                    lookup(record@, columns@[k]@),
                ),
        decreases columns@.len() - j,
    {
        let column = columns[j].as_str();
        cells.push(format_cell(column, record.get(column)));
        j += 1;
    }
    proof {
        assert(cells.deep_view() =~= row_cells(position as nat, record@, columns.deep_view()));
    }
    cells
}

} // verus!
