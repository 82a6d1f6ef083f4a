use crate::error::TableError;
use crate::json::{parse_document, parsed_json};
use crate::table::{build_table, resolve_window, table_of, window_of, Options, Table};
use vstd::prelude::*;

verus! {

/// A table of `cli_table` made of `rows`, one cell for each text, with the
/// bold title `header` where there is one, and written out by
/// `TableStruct::display`: its text, or the message of the error that
/// `display` gave. Nothing is claimed of the text: the escape sequences in it
/// depend on the machine.
#[verifier::external_body]
fn draw_table(header: Option<&Vec<String>>, rows: &Vec<Vec<String>>) -> (drawn: Result<
    String,
    String,
>) {
    let cells = rows.iter().map(|row| row.iter().map(|cell| cli_table::Cell::cell(cell)));
    let table = cli_table::Table::table(cells);
    let table = match header {
        Some(names) => table.title(
            names.iter().map(|name| cli_table::Style::bold(cli_table::Cell::cell(name), true)),
        ),
        None => table,
    };
    match table.display() {
        Ok(display) => Ok(display.to_string()),
        Err(error) => Err(error.to_string()),
    }
}

/// The header that is drawn above the rows of `table`: its own, where
/// `display_header` is set, and else none.
pub fn shown_header(table: &Table, display_header: bool) -> (header: Option<&Vec<String>>)
    ensures
        display_header ==> header == Some(&table.header),
        !display_header ==> header is None,
{
    if display_header {
        Some(&table.header)
    } else {
        None
    }
}

/// What is made of `drawn`, the outcome of drawing a table: the text that
/// was drawn stays as it is, and the message of a failure becomes the error
/// `Render` with that message.
pub fn drawing_outcome(drawn: Result<String, String>) -> (outcome: Result<String, TableError>)
    ensures
        match drawn {
            Ok(text) => outcome matches Ok(kept) && kept@ == text@,
            Err(message) => outcome matches Err(TableError::Render(kept)) && kept@ == message@,
        },
{
    match drawn {
        Ok(text) => Ok(text),
        Err(message) => Err(TableError::Render(message)),
    }
}

/// The text of `table` as a bordered table, one line of cells for each row,
/// under the header in bold where `display_header` is set. What is drawn is
/// the header that `shown_header` gives and the rows of `table`; what comes
/// of the drawing is what `drawing_outcome` makes of it. Where the table
/// cannot be written out, the error is `Render`.
pub fn render(table: &Table, display_header: bool) -> (rendered: Result<String, TableError>)
    ensures
        rendered matches Err(error) ==> error is Render,
{
    drawing_outcome(draw_table(shown_header(table, display_header), &table.rows))
}

/// The table that `options` ask for of the document that `text` writes
/// down, as text with its header. The errors come in this order: a page zero
/// is refused whatever the text is; then text that is no document; then a
/// document of which no table can be made; then a table that cannot be
/// written out.
pub fn render_document(text: &str, options: &Options) -> (rendered: Result<String, TableError>)
    ensures
        window_of(options@) is None ==> rendered == Err::<String, TableError>(
            TableError::InvalidPage,
        ),
        window_of(options@) is Some ==> match parsed_json(text@) {
            None => rendered matches Err(error) && error is Parse,
            Some(document) => match table_of(document, options@) {
                Err(cause) => rendered == Err::<String, TableError>(cause),
                Ok(_) => rendered matches Err(error) ==> error is Render,
            },
        },
{
    match resolve_window(options) {
        Err(error) => {
            return Err(error);
        },
        Ok(_) => {},
    }
    let document = match parse_document(text) {
        Ok(document) => document,
        Err(error) => {
            return Err(error);
        },
    };
    match build_table(&document, options) {
        Ok(table) => render(&table, true),
        Err(error) => Err(error),
    }
}

} // verus!
