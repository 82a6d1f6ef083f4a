use json_table::error::TableError;
use json_table::json::parse_document;
use json_table::render::{drawing_outcome, render, render_document, shown_header};
use json_table::table::{build_table, Options, Table};
use json_table::value::{Node, Record};

fn strings(cells: &[&str]) -> Vec<String> {
    cells.iter().map(|cell| cell.to_string()).collect()
}

const TWO_RECORDS: &str = "[{\"a\":1,\"b\":\"x\"},{\"a\":2,\"b\":\"y\"}]";

#[test]
fn two_records_without_options() {
    let document = parse_document(TWO_RECORDS).unwrap();
    let table = build_table(&document, &Options::new()).unwrap();
    assert_eq!(
        table,
        Table {
            header: strings(&["index", "a", "b"]),
            rows: vec![strings(&["1", "1", "x"]), strings(&["2", "2", "y"])],
        }
    );
}

#[test]
fn two_records_sorted_descending() {
    let document = parse_document(TWO_RECORDS).unwrap();
    let mut options = Options::new();
    options.sort = Some("a".to_string());
    options.order = Some("desc".to_string());
    let table = build_table(&document, &options).unwrap();
    assert_eq!(table.header, strings(&["index", "a", "b"]));
    assert_eq!(table.rows, vec![strings(&["1", "2", "y"]), strings(&["2", "1", "x"])]);
}

#[test]
fn two_records_sorted_without_a_direction_ascend() {
    let document = parse_document("[{\"a\":2},{\"a\":1}]").unwrap();
    let mut options = Options::new();
    options.sort = Some("a".to_string());
    let table = build_table(&document, &options).unwrap();
    assert_eq!(table.rows, vec![strings(&["1", "1"]), strings(&["2", "2"])]);
    options.order = Some("up".to_string());
    let table = build_table(&document, &options).unwrap();
    assert_eq!(table.rows, vec![strings(&["1", "1"]), strings(&["2", "2"])]);
}

#[test]
fn second_page_of_one_row() {
    let document = parse_document("[{\"a\":1},{\"a\":2},{\"a\":3}]").unwrap();
    let mut options = Options::new();
    options.page = Some(2);
    options.page_size = Some(1);
    let table = build_table(&document, &options).unwrap();
    assert_eq!(table.rows, vec![strings(&["1", "2"])]);
}

#[test]
fn object_at_the_root_is_refused() {
    let document = parse_document("{\"a\":1}").unwrap();
    assert_eq!(build_table(&document, &Options::new()), Err(TableError::NotAnArray));
    assert_eq!(render_document("{\"a\":1}", &Options::new()), Err(TableError::NotAnArray));
    assert_eq!(render_document("5", &Options::new()), Err(TableError::NotAnArray));
    assert_eq!(build_table(&Node::Str("[]".to_string()), &Options::new()), Err(TableError::NotAnArray));
}

#[test]
fn name_cell_loses_the_marker() {
    let document = parse_document("[{\"name\":\"foo {}\"}]").unwrap();
    let table = build_table(&document, &Options::new()).unwrap();
    assert_eq!(table.header, strings(&["index", "name"]));
    assert_eq!(table.rows, vec![strings(&["1", "foo"])]);
}

#[test]
fn an_empty_array_is_refused() {
    assert_eq!(build_table(&Node::Array(vec![]), &Options::new()), Err(TableError::EmptyDocument));
    assert_eq!(render_document("[]", &Options::new()), Err(TableError::EmptyDocument));
    let mut options = Options::new();
    options.columns = Some("a".to_string());
    assert_eq!(build_table(&Node::Array(vec![]), &options), Err(TableError::EmptyDocument));
}

#[test]
fn an_array_that_starts_with_no_record_is_refused() {
    let document = parse_document("[1, {\"a\": 1}]").unwrap();
    assert_eq!(build_table(&document, &Options::new()), Err(TableError::FirstNotRecord));
    let mut options = Options::new();
    options.columns = Some("a".to_string());
    assert_eq!(build_table(&document, &options), Err(TableError::FirstNotRecord));
}

#[test]
fn sorting_by_a_column_that_a_row_lacks_is_refused() {
    let document = parse_document("[{\"a\":1},{\"b\":2}]").unwrap();
    let mut options = Options::new();
    options.sort = Some("a".to_string());
    assert_eq!(build_table(&document, &options), Err(TableError::MissingSortColumn));
    assert_eq!(
        render_document("[{\"a\":1},{\"b\":2}]", &options),
        Err(TableError::MissingSortColumn)
    );
    options.take = Some(1);
    assert_eq!(build_table(&document, &options).unwrap().rows, vec![strings(&["1", "1"])]);
}

#[test]
fn errors_come_in_their_order() {
    let mut options = Options::new();
    options.page = Some(0);
    assert_eq!(render_document("not json", &options), Err(TableError::InvalidPage));
    assert!(matches!(render_document("not json", &Options::new()), Err(TableError::Parse(_))));
}

#[test]
fn columns_come_from_the_first_record_even_if_it_is_not_shown() {
    let document = parse_document("[{\"a\":1,\"b\":2},{\"b\":3,\"c\":4}]").unwrap();
    let mut options = Options::new();
    options.skip = Some(1);
    let table = build_table(&document, &options).unwrap();
    assert_eq!(table.header, strings(&["index", "a", "b"]));
    assert_eq!(table.rows, vec![strings(&["1", "", "3"])]);
}

#[test]
fn listed_columns_replace_those_of_the_first_record() {
    let document = parse_document("[{\"a\":1,\"b\":2},{\"b\":3,\"c\":4}]").unwrap();
    let mut options = Options::new();
    options.columns = Some("c, b ,c".to_string());
    let table = build_table(&document, &options).unwrap();
    assert_eq!(table.header, strings(&["index", "c", "b", "c"]));
    assert_eq!(table.rows, vec![strings(&["1", "", "2", ""]), strings(&["2", "4", "3", "4"])]);
}

#[test]
fn rows_are_numbered_as_they_are_shown() {
    let document =
        parse_document("[{\"a\":3},7,{\"a\":1},{\"a\":4},\"x\",{\"a\":2},{\"a\":5}]").unwrap();
    let mut options = Options::new();
    options.skip = Some(1);
    options.take = Some(3);
    options.sort = Some("a".to_string());
    options.order = Some("desc".to_string());
    let table = build_table(&document, &options).unwrap();
    assert_eq!(
        table.rows,
        vec![strings(&["1", "4"]), strings(&["2", "2"]), strings(&["3", "1"])]
    );
}

#[test]
fn every_kind_of_value_has_its_cell() {
    let document = parse_document(
        "[{\"n\":null,\"t\":true,\"i\":-3,\"u\":18446744073709551615,\"f\":2.5,\"s\":\"a {}\",\"l\":[1],\"o\":{}}]",
    )
    .unwrap();
    let table = build_table(&document, &Options::new()).unwrap();
    assert_eq!(table.header, strings(&["index", "n", "t", "i", "u", "f", "s", "l", "o"]));
    assert_eq!(
        table.rows,
        vec![strings(&[
            "1",
            "null",
            "true",
            "-3",
            "18446744073709551615",
            "2.5",
            "a {}",
            "not displayable",
            "not displayable"
        ])]
    );
}

#[test]
fn options_that_ask_for_nothing() {
    assert_eq!(
        Options::new(),
        Options {
            columns: None,
            take: None,
            skip: None,
            sort: None,
            order: None,
            page: None,
            page_size: None,
        }
    );
}

#[test]
fn rendered_table_shows_header_and_cells() {
    let table = Table { header: strings(&["index", "a"]), rows: vec![strings(&["1", "x"])] };
    let text = render(&table, true).unwrap();
    assert!(text.contains("index"));
    assert!(text.contains("x"));
    assert!(text.contains("+"));
    assert!(text.contains("|"));
    assert_eq!(text.lines().filter(|line| line.contains('|')).count(), 2);
    assert_eq!(text.lines().filter(|line| line.contains('+')).count(), 3);
    let bare = render(&table, false).unwrap();
    assert!(!bare.contains("index"));
    assert_eq!(bare.lines().filter(|line| line.contains('|')).count(), 1);
    assert_eq!(bare.lines().filter(|line| line.contains('+')).count(), 2);
}

#[test]
fn rendered_document_holds_every_cell() {
    let text = render_document(TWO_RECORDS, &Options::new()).unwrap();
    for cell in ["index", "a", "b", "1", "2", "x", "y"] {
        assert!(text.contains(cell), "no {} in {}", cell, text);
    }
    assert_eq!(text.lines().filter(|line| line.contains('|')).count(), 3);
    assert_eq!(text.lines().filter(|line| line.contains('+')).count(), 4);
    assert_ne!(text, TWO_RECORDS);
}

#[test]
fn a_table_without_rows_is_rendered() {
    let document = Node::Array(vec![Node::Object(Record {
        entries: vec![("a".to_string(), Node::Int64(1))],
    })]);
    let mut options = Options::new();
    options.skip = Some(5);
    let table = build_table(&document, &options).unwrap();
    assert_eq!(table.rows, Vec::<Vec<String>>::new());
    let text = render(&table, true).unwrap();
    assert!(text.contains("index"));
}

#[test]
fn the_header_is_shown_only_where_it_is_asked_for() {
    let table = Table { header: strings(&["index", "a"]), rows: vec![strings(&["1", "x"])] };
    assert_eq!(shown_header(&table, true), Some(&strings(&["index", "a"])));
    assert_eq!(shown_header(&table, false), None);
    let bare = Table { header: vec![], rows: vec![] };
    assert_eq!(shown_header(&bare, true), Some(&vec![]));
}

#[test]
fn a_drawing_keeps_its_text_and_a_failure_its_message() {
    assert_eq!(drawing_outcome(Ok("+---+".to_string())), Ok("+---+".to_string()));
    assert_eq!(drawing_outcome(Ok(String::new())), Ok(String::new()));
    assert_eq!(
        drawing_outcome(Err("broken pipe".to_string())),
        Err(TableError::Render("broken pipe".to_string()))
    );
}
