use json_table::error::TableError;
use json_table::order::{
    compare, compare_text, compare_values, descending, direct, stands_after,
};
use json_table::sort::{sort_order, sort_rows};
use json_table::value::{float_rank_of, Float, Node, Record, SIGN_BIT};
use std::cmp::Ordering;

fn double(x: f64) -> Node {
    Node::Float64(Float { bits: x.to_bits(), text: x.to_string() })
}

fn text(s: &str) -> Node {
    Node::Str(s.to_string())
}

fn keyed(a: Node, b: &str) -> Record {
    Record { entries: vec![("a".to_string(), a), ("b".to_string(), text(b))] }
}

fn tags(rows: &Vec<&Record>) -> Vec<String> {
    rows.iter()
        .map(|record| match &record.entries[1].1 {
            Node::Str(tag) => tag.clone(),
            _ => panic!("not a row of this test"),
        })
        .collect()
}

#[test]
fn integers_are_ordered_by_value() {
    assert_eq!(compare_values(&Node::Int64(-3), &Node::Int64(2)), Ordering::Less);
    assert_eq!(compare_values(&Node::Int64(2), &Node::Int64(2)), Ordering::Equal);
    assert_eq!(compare_values(&Node::Int64(i64::MAX), &Node::Int64(i64::MIN)), Ordering::Greater);
    assert_eq!(compare_values(&Node::UInt64(1), &Node::UInt64(u64::MAX)), Ordering::Less);
    assert_eq!(compare_values(&Node::UInt64(9), &Node::UInt64(9)), Ordering::Equal);
    assert_eq!(compare_values(&Node::UInt64(9), &Node::UInt64(8)), Ordering::Greater);
}

#[test]
fn false_comes_before_true() {
    assert_eq!(compare_values(&Node::Bool(false), &Node::Bool(true)), Ordering::Less);
    assert_eq!(compare_values(&Node::Bool(true), &Node::Bool(false)), Ordering::Greater);
    assert_eq!(compare_values(&Node::Bool(true), &Node::Bool(true)), Ordering::Equal);
    assert_eq!(compare_values(&Node::Bool(false), &Node::Bool(false)), Ordering::Equal);
}

#[test]
fn doubles_are_ordered_as_numbers() {
    let values = [
        f64::NEG_INFINITY,
        -1.0e300,
        -2.5,
        -1.0,
        -f64::MIN_POSITIVE,
        -0.0,
        0.0,
        5e-324,
        0.1,
        1.0,
        1.5,
        3.0e10,
        f64::MAX,
        f64::INFINITY,
    ];
    for x in values {
        for y in values {
            assert_eq!(
                compare_values(&double(x), &double(y)),
                x.partial_cmp(&y).unwrap(),
                "{} and {}",
                x,
                y
            );
        }
    }
}

#[test]
fn rank_of_a_double() {
    assert_eq!(float_rank_of(0), 0);
    assert_eq!(float_rank_of(SIGN_BIT), 0);
    assert_eq!(float_rank_of(1), 1);
    assert_eq!(float_rank_of(SIGN_BIT + 1), -1);
    assert_eq!(float_rank_of(u64::MAX), -i64::MAX);
    assert_eq!(float_rank_of(SIGN_BIT - 1), i64::MAX);
    assert_eq!(float_rank_of(1.0f64.to_bits()), 0x3ff0_0000_0000_0000);
}

#[test]
fn texts_are_ordered_by_their_characters() {
    assert_eq!(compare_text("a", "b"), Ordering::Less);
    assert_eq!(compare_text("b", "a"), Ordering::Greater);
    assert_eq!(compare_text("a", "ab"), Ordering::Less);
    assert_eq!(compare_text("ab", "a"), Ordering::Greater);
    assert_eq!(compare_text("", ""), Ordering::Equal);
    assert_eq!(compare_text("", "a"), Ordering::Less);
    assert_eq!(compare_text("abc", "abc"), Ordering::Equal);
    assert_eq!(compare_text("Z", "a"), Ordering::Less);
    assert_eq!(compare_text("10", "9"), Ordering::Less);
}

#[test]
fn texts_are_ordered_as_std_orders_them() {
    let texts = ["", "a", "ab", "b", "\u{e9}", "z", "\u{10348}", "\u{ffff}", "e\u{301}", "zz"];
    for x in texts {
        for y in texts {
            assert_eq!(compare_text(x, y), x.cmp(y), "{:?} and {:?}", x, y);
            assert_eq!(compare_values(&text(x), &text(y)), x.cmp(y));
        }
    }
}

#[test]
fn values_of_different_kinds_count_as_equal() {
    let values = [
        Node::Null,
        Node::Bool(true),
        Node::Int64(1),
        Node::UInt64(2),
        double(3.5),
        text("x"),
        Node::Array(vec![Node::Int64(1)]),
        Node::Object(Record { entries: vec![] }),
    ];
    for (i, x) in values.iter().enumerate() {
        for (j, y) in values.iter().enumerate() {
            if i != j {
                assert_eq!(compare_values(x, y), Ordering::Equal, "{:?} and {:?}", x, y);
            }
        }
    }
}

#[test]
fn numbers_of_different_kinds_are_not_converted() {
    assert_eq!(compare_values(&Node::Int64(1), &Node::UInt64(2)), Ordering::Equal);
    assert_eq!(compare_values(&Node::UInt64(2), &Node::Int64(1)), Ordering::Equal);
    assert_eq!(compare_values(&double(0.5), &Node::Int64(1)), Ordering::Equal);
    assert_eq!(compare_values(&Node::Int64(1), &double(0.5)), Ordering::Equal);
}

#[test]
fn values_without_an_order_count_as_equal() {
    assert_eq!(compare_values(&Node::Null, &Node::Null), Ordering::Equal);
    assert_eq!(
        compare_values(&Node::Array(vec![Node::Int64(1)]), &Node::Array(vec![Node::Int64(2)])),
        Ordering::Equal
    );
}

#[test]
fn only_desc_is_descending() {
    assert!(descending("desc"));
    assert!(!descending("asc"));
    assert!(!descending("DESC"));
    assert!(!descending("desc "));
    assert!(!descending(""));
    assert!(!descending("descending"));
}

#[test]
fn direction_reverses_the_order() {
    assert_eq!(direct(Ordering::Less, true), Ordering::Greater);
    assert_eq!(direct(Ordering::Greater, true), Ordering::Less);
    assert_eq!(direct(Ordering::Equal, true), Ordering::Equal);
    assert_eq!(direct(Ordering::Less, false), Ordering::Less);
    assert_eq!(direct(Ordering::Greater, false), Ordering::Greater);
    assert_eq!(direct(Ordering::Equal, false), Ordering::Equal);
}

#[test]
fn records_are_compared_by_the_column() {
    let one = keyed(Node::Int64(1), "x");
    let two = keyed(Node::Int64(2), "a");
    assert_eq!(compare(&one, &two, "a", "asc"), Some(Ordering::Less));
    assert_eq!(compare(&two, &one, "a", "asc"), Some(Ordering::Greater));
    assert_eq!(compare(&one, &one, "a", "asc"), Some(Ordering::Equal));
    assert_eq!(compare(&one, &two, "b", "asc"), Some(Ordering::Greater));
    assert_eq!(compare(&one, &two, "a", "whatever"), Some(Ordering::Less));
}

#[test]
fn descending_is_the_reverse_of_ascending() {
    let rows = [
        keyed(Node::Int64(1), "x"),
        keyed(Node::Int64(2), "a"),
        keyed(text("t"), "a"),
        keyed(Node::Bool(false), "m"),
        keyed(Node::Int64(2), "q"),
    ];
    for column in ["a", "b"] {
        for x in rows.iter() {
            for y in rows.iter() {
                let up = compare(x, y, column, "asc").unwrap();
                let down = compare(x, y, column, "desc").unwrap();
                assert_eq!(down, up.reverse());
            }
        }
    }
}

#[test]
fn a_missing_column_cannot_be_compared() {
    let one = keyed(Node::Int64(1), "x");
    let bare = Record { entries: vec![("b".to_string(), text("y"))] };
    assert_eq!(compare(&one, &bare, "a", "asc"), None);
    assert_eq!(compare(&bare, &one, "a", "asc"), None);
    assert_eq!(compare(&bare, &bare, "a", "desc"), None);
    assert_eq!(compare(&one, &bare, "b", "asc"), Some(Ordering::Less));
}

#[test]
fn stands_after_follows_the_direction() {
    assert!(stands_after(&Node::Int64(2), &Node::Int64(1), false));
    assert!(!stands_after(&Node::Int64(1), &Node::Int64(2), false));
    assert!(!stands_after(&Node::Int64(1), &Node::Int64(1), false));
    assert!(stands_after(&Node::Int64(1), &Node::Int64(2), true));
    assert!(!stands_after(&Node::Int64(2), &Node::Int64(1), true));
    assert!(!stands_after(&Node::Int64(1), &Node::Int64(1), true));
    assert!(!stands_after(&Node::Int64(5), &text("a"), false));
}

#[test]
fn sort_order_is_a_stable_permutation() {
    let three = Node::Int64(3);
    let one = Node::Int64(1);
    let two = Node::Int64(2);
    let keys = vec![&three, &one, &two, &one, &three];
    assert_eq!(sort_order(&keys, false), vec![1, 3, 2, 0, 4]);
    assert_eq!(sort_order(&keys, true), vec![0, 4, 2, 1, 3]);
    assert_eq!(sort_order(&vec![], false), Vec::<usize>::new());
    assert_eq!(sort_order(&vec![&one], true), vec![0]);
}

#[test]
fn rows_are_sorted_ascending_and_descending() {
    let rows = [keyed(Node::Int64(3), "c"), keyed(Node::Int64(1), "a"), keyed(Node::Int64(2), "b")];
    let up = sort_rows(rows.iter().collect(), "a", "asc").unwrap();
    assert_eq!(tags(&up), ["a", "b", "c"]);
    let down = sort_rows(rows.iter().collect(), "a", "desc").unwrap();
    assert_eq!(tags(&down), ["c", "b", "a"]);
    let by_text = sort_rows(rows.iter().collect(), "b", "desc").unwrap();
    assert_eq!(tags(&by_text), ["c", "b", "a"]);
}

#[test]
fn equal_rows_keep_their_order_in_both_directions() {
    let rows = [
        keyed(Node::Int64(1), "first"),
        keyed(Node::Int64(0), "low"),
        keyed(Node::Int64(1), "second"),
        keyed(Node::Int64(2), "high"),
        keyed(Node::Int64(1), "third"),
    ];
    let up = sort_rows(rows.iter().collect(), "a", "asc").unwrap();
    assert_eq!(tags(&up), ["low", "first", "second", "third", "high"]);
    let down = sort_rows(rows.iter().collect(), "a", "desc").unwrap();
    assert_eq!(tags(&down), ["high", "first", "second", "third", "low"]);
}

#[test]
fn distinct_keys_descend_in_the_reverse_of_ascending() {
    let rows: Vec<Record> =
        [5.5, -1.0, 3.25, 0.0, 100.0, -7.5].iter().map(|x| keyed(double(*x), "r")).collect();
    let up = sort_rows(rows.iter().collect(), "a", "asc").unwrap();
    let mut down = sort_rows(rows.iter().collect(), "a", "desc").unwrap();
    down.reverse();
    assert_eq!(up, down);
    let first: Vec<&Node> = up.iter().map(|record| &record.entries[0].1).collect();
    assert_eq!(
        first,
        vec![&double(-7.5), &double(-1.0), &double(0.0), &double(3.25), &double(5.5), &double(100.0)]
    );
}

#[test]
fn rows_of_mixed_kinds_are_only_ordered_among_neighbours() {
    let rows = [keyed(Node::Int64(2), "two"), keyed(text("t"), "text"), keyed(Node::Int64(1), "one")];
    let up = sort_rows(rows.iter().collect(), "a", "asc").unwrap();
    assert_eq!(tags(&up), ["two", "text", "one"]);
}

#[test]
fn sorting_by_a_missing_column_fails() {
    let full = keyed(Node::Int64(1), "x");
    let bare = Record { entries: vec![("b".to_string(), text("y"))] };
    assert_eq!(sort_rows(vec![&full, &bare], "a", "asc"), Err(TableError::MissingSortColumn));
    assert_eq!(sort_rows(vec![&bare, &full], "a", "desc"), Err(TableError::MissingSortColumn));
    assert_eq!(sort_rows(vec![&bare, &bare], "zzz", "asc"), Err(TableError::MissingSortColumn));
}

#[test]
fn fewer_than_two_rows_are_not_compared() {
    let bare = Record { entries: vec![("b".to_string(), text("y"))] };
    assert_eq!(sort_rows(vec![&bare], "a", "asc"), Ok(vec![&bare]));
    assert_eq!(sort_rows(vec![], "a", "asc"), Ok(vec![]));
}
