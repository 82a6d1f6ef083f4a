use json_table::error::TableError;
use json_table::select::{select_rows, DEFAULT_PAGE_SIZE, TAKE_ALL};
use json_table::table::{build_table, resolve_window, Options};
use json_table::value::{Node, Record};

fn row(a: i64) -> Node {
    Node::Object(Record { entries: vec![("a".to_string(), Node::Int64(a))] })
}

fn mixed() -> Vec<Node> {
    vec![row(1), Node::Int64(5), row(2), Node::Str("x".to_string()), row(3), Node::Null, row(4)]
}

fn shown(records: &Vec<Node>, skip: usize, take: usize) -> Vec<i64> {
    select_rows(records, skip, take)
        .iter()
        .map(|record| match &record.entries[0].1 {
            Node::Int64(a) => *a,
            _ => panic!("not a row of this test"),
        })
        .collect()
}

#[test]
fn only_records_are_rows() {
    assert_eq!(shown(&mixed(), 0, TAKE_ALL), vec![1, 2, 3, 4]);
}

#[test]
fn rows_are_skipped_then_taken() {
    assert_eq!(shown(&mixed(), 1, 2), vec![2, 3]);
    assert_eq!(shown(&mixed(), 0, 1), vec![1]);
    assert_eq!(shown(&mixed(), 3, 1), vec![4]);
}

#[test]
fn the_window_is_cut_at_the_last_row() {
    assert_eq!(shown(&mixed(), 2, 10), vec![3, 4]);
    assert_eq!(shown(&mixed(), 3, usize::MAX), vec![4]);
}

#[test]
fn a_skip_behind_the_last_row_leaves_nothing() {
    assert_eq!(shown(&mixed(), 4, 10), Vec::<i64>::new());
    assert_eq!(shown(&mixed(), 5, 10), Vec::<i64>::new());
    assert_eq!(shown(&mixed(), usize::MAX, usize::MAX), Vec::<i64>::new());
}

#[test]
fn taking_nothing_leaves_nothing() {
    assert_eq!(shown(&mixed(), 0, 0), Vec::<i64>::new());
    assert_eq!(shown(&vec![], 0, 10), Vec::<i64>::new());
}

#[test]
fn window_without_options_is_everything() {
    assert_eq!(TAKE_ALL, 999_999_999);
    assert_eq!(DEFAULT_PAGE_SIZE, 10);
    assert_eq!(resolve_window(&Options::new()), Ok((0, 999_999_999)));
}

#[test]
fn window_of_skip_and_take() {
    let mut options = Options::new();
    options.skip = Some(7);
    assert_eq!(resolve_window(&options), Ok((7, 999_999_999)));
    options.take = Some(3);
    assert_eq!(resolve_window(&options), Ok((7, 3)));
}

#[test]
fn window_of_a_page() {
    let mut options = Options::new();
    options.page = Some(3);
    assert_eq!(resolve_window(&options), Ok((20, 10)));
    options.page_size = Some(7);
    assert_eq!(resolve_window(&options), Ok((14, 7)));
    options.page = Some(1);
    assert_eq!(resolve_window(&options), Ok((0, 7)));
}

#[test]
fn a_page_overrides_skip_and_take() {
    let mut options = Options::new();
    options.skip = Some(100);
    options.take = Some(1);
    options.page = Some(2);
    options.page_size = Some(5);
    assert_eq!(resolve_window(&options), Ok((5, 5)));
}

#[test]
fn page_size_counts_only_with_a_page() {
    let mut options = Options::new();
    options.page_size = Some(2);
    assert_eq!(resolve_window(&options), Ok((0, 999_999_999)));
}

#[test]
fn page_zero_is_refused() {
    let mut options = Options::new();
    options.page = Some(0);
    assert_eq!(resolve_window(&options), Err(TableError::InvalidPage));
    let document = Node::Array(vec![row(1)]);
    assert_eq!(build_table(&document, &options), Err(TableError::InvalidPage));
    assert_eq!(build_table(&Node::Null, &options), Err(TableError::InvalidPage));
}

#[test]
fn a_page_beyond_counting_is_empty() {
    let mut options = Options::new();
    options.page = Some(usize::MAX);
    options.page_size = Some(usize::MAX);
    assert_eq!(resolve_window(&options), Ok((usize::MAX, usize::MAX)));
    let document = Node::Array(vec![row(1), row(2)]);
    assert_eq!(build_table(&document, &options).unwrap().rows, Vec::<Vec<String>>::new());
}

#[test]
fn a_page_is_a_skip_and_a_take() {
    let document = Node::Array((1..=23).map(row).collect());
    for page in 1..=4 {
        for size in [1usize, 5, 10, 30] {
            let mut paged = Options::new();
            paged.page = Some(page);
            paged.page_size = Some(size);
            let mut plain = Options::new();
            plain.skip = Some((page - 1) * size);
            plain.take = Some(size);
            assert_eq!(build_table(&document, &paged), build_table(&document, &plain));
        }
    }
}
