use crate::cell::{display_row, header_cells, header_row, row_cells};
use crate::columns::{column_names, resolve_columns};
use crate::error::TableError;
use crate::select::{
    lemma_records_of_len, lemma_window_beyond, records_of, select_rows, selected_rows,
    DEFAULT_PAGE_SIZE, TAKE_ALL,
};
use crate::sort::{all_have, row_fields, sort_rows, sorted_rows};
use crate::value::{contents, lemma_array_content, Fields, Json, Node};
use vstd::prelude::*;

verus! {

/// What is asked of a table. Each option may be left out.
#[derive(Debug, PartialEq)]
pub struct Options {
    /// The columns to show, as a comma-separated list; without it the
    /// columns are the fields of the first record.
    pub columns: Option<String>,
    /// How many rows to show at most; without it, `TAKE_ALL`.
    pub take: Option<usize>,
    /// How many rows to leave out at the start; without it, none.
    pub skip: Option<usize>,
    /// The field to sort the rows by; without it they stay in their order.
    pub sort: Option<String>,
    /// The direction of the sort: `desc` is descending, anything else
    /// ascending.
    pub order: Option<String>,
    /// The page to show, counted from 1. Where it is set, `skip` and `take`
    /// do not count.
    pub page: Option<usize>,
    /// How many rows a page holds; without it, `DEFAULT_PAGE_SIZE`.
    pub page_size: Option<usize>,
}

/// The content of [`Options`].
pub struct OptionsView {
    pub columns: Option<Seq<char>>,
    pub take: Option<usize>,
    pub skip: Option<usize>,
    pub sort: Option<Seq<char>>,
    pub order: Option<Seq<char>>,
    pub page: Option<usize>,
    pub page_size: Option<usize>,
}

/// The content of `text`, where there is one.
pub open spec fn content_of_text(text: Option<String>) -> Option<Seq<char>> {
    match text {
        Some(t) => Some(t@),
        None => None,
    }
}

impl View for Options {
    type V = OptionsView;

    open spec fn view(&self) -> OptionsView {
        OptionsView {
            columns: content_of_text(self.columns),
            take: self.take,
            skip: self.skip,
            sort: content_of_text(self.sort),
            order: content_of_text(self.order),
            page: self.page,
            page_size: self.page_size,
        }
    }
}

impl Options {
    /// Options that ask for nothing: every record, every field, in the
    /// order of the document.
    pub fn new() -> (options: Options)
        ensures
            options@ == (OptionsView {
                columns: None,
                take: None,
                skip: None,
                sort: None,
                order: None,
                page: None,
                page_size: None,
            }),
    {
        Options {
            columns: None,
            take: None,
            skip: None,
            sort: None,
            order: None,
            page: None,
            page_size: None,
        }
    }
}

/// A table as text: the cells of the header, and those of each row.
#[derive(Debug, PartialEq)]
pub struct Table {
    pub header: Vec<String>,
    pub rows: Vec<Vec<String>>,
}

/// The content of a [`Table`].
pub struct TableView {
    pub header: Seq<Seq<char>>,
    pub rows: Seq<Seq<Seq<char>>>,
}

impl View for Table {
    type V = TableView;

    open spec fn view(&self) -> TableView {
        TableView { header: self.header.deep_view(), rows: self.rows.deep_view() }
    }
}

/// How many rows `options` leave out at the start, and how many they show at
/// most. A page number `p` with the page size `s` stands for leaving out
/// `(p - 1) * s` rows and showing `s`. There is no page zero: it gives `None`.
pub open spec fn window_of(options: OptionsView) -> Option<(nat, nat)> {
    match options.page {
        Some(page) => {
            let size = page_size_of(options);
            if page == 0 {
                None
            } else {
                Some((((page - 1) * size) as nat, size as nat))
            }
        },
        None => {
            let skip = match options.skip {
                Some(skip) => skip,
                None => 0,
            };
            let take = match options.take {
                Some(take) => take,
                None => TAKE_ALL,
            };
            Some((skip as nat, take as nat))
        },
    }
}

/// The direction in which `options` sort: `asc` where none is given.
pub open spec fn direction_of(options: OptionsView) -> Seq<char> {
    match options.order {
        Some(direction) => direction,
        None => "asc"@,
    }
}

/// The rows of `rows` in the order in which `options` show them.
pub open spec fn ordered_rows(rows: Seq<Fields>, options: OptionsView) -> Seq<Fields> {
    match options.sort {
        Some(column) => sorted_rows(rows, column, direction_of(options)),
        None => rows,
    }
}

/// Whether `options` ask for a sort that `rows` cannot undergo: two or more
/// rows are to be ordered by a field that one of them does not have.
pub open spec fn sort_fails(rows: Seq<Fields>, options: OptionsView) -> bool {
    match options.sort {
        Some(column) => rows.len() >= 2 && !all_have(rows, column),
        None => false,
    }
}

/// The table that `options` ask for of the records `items`, the first of
/// which has the fields `first`.
pub open spec fn table_of_records(
    items: Seq<Json>,
    first: Fields,
    skip: nat,
    take: nat,
    options: OptionsView,
) -> Result<TableView, TableError> {
    let columns = column_names(first, options.columns);
    let rows = selected_rows(items, skip, take);
    if sort_fails(rows, options) {
        Err(TableError::MissingSortColumn)
    } else {
        let ordered = ordered_rows(rows, options);
        Ok(
            TableView {
                header: header_cells(columns),
                rows: Seq::new(
                    ordered.len(),
                    |i: int| row_cells((i + 1) as nat, ordered[i], columns),
                ),
            },
        )
    }
}

/// The table that `options` ask for of `document`, or why there is none.
/// The document has to be an array that is not empty and starts with a
/// record, which tells the columns where `options` list none. The rows are
/// the records of the array, selected, then sorted, and numbered from 1 in
/// the order in which they are shown.
pub open spec fn table_of(document: Json, options: OptionsView) -> Result<TableView, TableError> {
    match window_of(options) {
        None => Err(TableError::InvalidPage),
        Some((skip, take)) => match document {
            Json::Array(items) => if items.len() == 0 {
                Err(TableError::EmptyDocument)
            } else {
                match items[0] {
                    Json::Object(first) => table_of_records(items, first, skip, take, options),
                    _ => Err(TableError::FirstNotRecord),
                }
            },
            _ => Err(TableError::NotAnArray),
        },
    }
}

/// The size of the pages of `options`.
pub open spec fn page_size_of(options: OptionsView) -> usize {
    match options.page_size {
        Some(size) => size,
        None => DEFAULT_PAGE_SIZE,
    }
}

/// To ask for page `p` of pages of `s` rows is to ask for `s` rows behind
/// the first `(p - 1) * s`: of every document both give the same table, or
/// fail alike.
pub proof fn lemma_page_is_skip_and_take(document: Json, paged: OptionsView, plain: OptionsView)
    requires
        paged.page is Some,
        paged.page->0 >= 1,
        plain.skip is Some,
        plain.skip->0 == (paged.page->0 - 1) * page_size_of(paged),
        plain.take == Some(page_size_of(paged)),
        plain.page is None,
        plain.columns == paged.columns,
        plain.sort == paged.sort,
        plain.order == paged.order,
    ensures
        table_of(document, paged) == table_of(document, plain),
{
    assert(window_of(paged) == window_of(plain));
}

/// How many rows `options` leave out at the start, and how many they show at
/// most; the first of the two stops at `usize::MAX`, beyond which no array
/// has a row. A page zero is refused.
pub fn resolve_window(options: &Options) -> (resolved: Result<(usize, usize), TableError>)
    ensures
        match window_of(options@) {
            Some((skip, take)) => resolved matches Ok(found) && found.1 == take && found.0 == if skip
                <= usize::MAX {
                skip
            } else {
                usize::MAX as nat
            },
            None => resolved matches Err(error) && error == TableError::InvalidPage,
        },
{
    match options.page {
        Some(page) => {
            let size = match options.page_size {
                Some(size) => size,
                None => DEFAULT_PAGE_SIZE,
            };
            if page == 0 {
                Err(TableError::InvalidPage)
            } else {
                match (page - 1).checked_mul(size) {
                    Some(skip) => Ok((skip, size)),
                    None => Ok((usize::MAX, size)),
                }
            }
        },
        None => {
            let skip = match options.skip {
                Some(skip) => skip,
                None => 0,
            };
            let take = match options.take {
                Some(take) => take,
                None => TAKE_ALL,
            };
            Ok((skip, take))
        },
    }
}

/// The text of `text`, where there is one.
fn text_ref(text: &Option<String>) -> (found: Option<&str>)
    ensures
        crate::columns::text_of(found) == content_of_text(*text),
{
    match text {
        Some(t) => Some(t.as_str()),
        None => None,
    }
}

/// The table that `options` ask for of `document`, or why there is none.
pub fn build_table(document: &Node, options: &Options) -> (table: Result<Table, TableError>)
    ensures
        match table_of(document@, options@) {
            Ok(view) => table matches Ok(built) && built@ == view,
            Err(error) => table matches Err(e) && e == error,
        },
{
    let (skip, take) = match resolve_window(options) {
        Ok(found) => found,
        Err(error) => {
            return Err(error);
        },
    };
    let items = match document {
        Node::Array(items) => items,
        _ => {
            return Err(TableError::NotAnArray);
        },
    };
    proof {
        lemma_array_content(*items);
    }
    if items.len() == 0 {
        return Err(TableError::EmptyDocument);
    }
    let first = match &items[0] {
        Node::Object(record) => record,
        _ => {
            return Err(TableError::FirstNotRecord);
        },
    };
    let ghost window = window_of(options@)->0;
    let columns = resolve_columns(first, text_ref(&options.columns));
    let rows = select_rows(items, skip, take);
    proof {
        lemma_records_of_len(contents(items@));
        if window.0 > usize::MAX {
            lemma_window_beyond(records_of(contents(items@)), skip as nat, window.0, take as nat);
        }
        assert(row_fields(rows@) == selected_rows(contents(items@), window.0, window.1));
    }
    let ordered = match &options.sort {
        Some(column) => {
            let direction = match &options.order {
                Some(direction) => direction.as_str(),
                None => "asc",
            };
            match sort_rows(rows, column.as_str(), direction) {
                Ok(sorted) => sorted,
                Err(error) => {
                    return Err(error);
                },
            }
        },
        None => rows,
    };
    let header = header_row(&columns);
    let mut cells: Vec<Vec<String>> = Vec::new();
    let mut i: usize = 0;
    while i < ordered.len()
        invariant
            i <= ordered@.len(),
            cells@.len() == i,
            forall|k: int|
                0 <= k < i ==> (#[trigger] cells@[k]).deep_view() == row_cells(
                    (k + 1) as nat,
                    row_fields(ordered@)[k],
                    columns.deep_view(),
                ),
        decreases ordered@.len() - i,
    {
        cells.push(display_row(i + 1, ordered[i], &columns));
        i += 1;
    }
    let table = Table { header, rows: cells };
    proof {
        let view = table_of(document@, options@)->Ok_0;
        assert(table@.rows =~= view.rows);
    }
    Ok(table)
}

} // verus!
