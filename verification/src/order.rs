use crate::text::{
    chars_of, common_prefix, common_prefix_len, lemma_common_prefix, lemma_common_prefix_is,
    lemma_common_prefix_same,
};
use crate::value::{float_rank, float_rank_of, lookup, Fields, Json, Record, Node};
use core::cmp::Ordering;
use vstd::prelude::*;
use vstd::string::*;

verus! {

/// The order of two booleans: `false` comes before `true`.
pub open spec fn bool_ordering(x: bool, y: bool) -> Ordering {
    if x == y {
        Ordering::Equal
    } else if y {
        Ordering::Less
    } else {
        Ordering::Greater
    }
}

/// The order of two signed integers.
pub open spec fn signed_ordering(x: i64, y: i64) -> Ordering {
    if x < y {
        Ordering::Less
    } else if x == y {
        Ordering::Equal
    } else {
        Ordering::Greater
    }
}

/// The order of two unsigned integers.
pub open spec fn unsigned_ordering(x: u64, y: u64) -> Ordering {
    if x < y {
        Ordering::Less
    } else if x == y {
        Ordering::Equal
    } else {
        Ordering::Greater
    }
}

/// The order of two doubles, given by their bit patterns: that of their
/// ranks.
pub open spec fn float_ordering(x: u64, y: u64) -> Ordering {
    if float_rank(x) < float_rank(y) {
        Ordering::Less
    } else if float_rank(x) == float_rank(y) {
        Ordering::Equal
    } else {
        Ordering::Greater
    }
}

/// The lexicographic order of two texts: decided by the first character in
/// which they differ, and where there is none, the shorter text comes first.
pub open spec fn text_ordering(x: Seq<char>, y: Seq<char>) -> Ordering {
    let k = common_prefix(x, y);
    if k < x.len() && k < y.len() {
        if x[k] < y[k] {
            Ordering::Less
        } else {
            Ordering::Greater
        }
    } else if k < y.len() {
        Ordering::Less
    } else if k < x.len() {
        Ordering::Greater
    } else {
        Ordering::Equal
    }
}

/// The order of two values. The kind of the first decides how they are
/// compared: a boolean with a boolean, a double with a double, a signed
/// integer with a signed integer, an unsigned integer with an unsigned
/// integer, a text with a text. A second value of another kind, and any pair
/// whose first value is of no such kind, counts as equal: no kind is
/// converted into another.
pub open spec fn value_ordering(a: Json, b: Json) -> Ordering {
    match (a, b) {
        (Json::Bool(x), Json::Bool(y)) => bool_ordering(x, y),
        (Json::Float64 { bits: x, .. }, Json::Float64 { bits: y, .. }) => float_ordering(x, y),
        (Json::Int64(x), Json::Int64(y)) => signed_ordering(x, y),
        (Json::UInt64(x), Json::UInt64(y)) => unsigned_ordering(x, y),
        (Json::Str(x), Json::Str(y)) => text_ordering(x, y),
        _ => Ordering::Equal,
    }
}

/// The opposite order.
pub open spec fn reversed(ordering: Ordering) -> Ordering {
    match ordering {
        Ordering::Less => Ordering::Greater,
        Ordering::Equal => Ordering::Equal,
        Ordering::Greater => Ordering::Less,
    }
}

/// Whether `direction` asks for the descending order: only `desc` does.
pub open spec fn is_descending(direction: Seq<char>) -> bool {
    direction == "desc"@
}

/// `ordering` as it is, or reversed where the order is descending.
pub open spec fn directed(ordering: Ordering, descending: bool) -> Ordering {
    if descending {
        reversed(ordering)
    } else {
        ordering
    }
}

/// The order of two records by the field `column`, in the direction
/// `direction`; `None` where one of them has no such field.
pub open spec fn record_ordering(
    a: Fields,
    b: Fields,
    column: Seq<char>,
    direction: Seq<char>,
) -> Option<Ordering> {
    match (lookup(a, column), lookup(b, column)) {
        (Some(x), Some(y)) => Some(directed(value_ordering(x, y), is_descending(direction))),
        _ => None,
    }
}

/// Whether the sort key `x` has to stand behind the sort key `y`.
pub open spec fn key_after(x: Json, y: Json, descending: bool) -> bool {
    directed(value_ordering(x, y), descending) == Ordering::Greater
}

/// Whether the sort keys `x` and `y` count as equal.
pub open spec fn key_tie(x: Json, y: Json) -> bool {
    value_ordering(x, y) == Ordering::Equal
}

/// The order of two texts.
pub fn compare_text(a: &str, b: &str) -> (ordering: Ordering)
    ensures
        ordering == text_ordering(a@, b@),
{
    let x = chars_of(a);
    let y = chars_of(b);
    let k = common_prefix_len(&x, &y);
    if k < x.len() && k < y.len() {
        if x[k] < y[k] {
            Ordering::Less
        } else {
            Ordering::Greater
        }
    } else if k < y.len() {
        Ordering::Less
    } else if k < x.len() {
        Ordering::Greater
    } else {
        Ordering::Equal
    }
}

/// The order of two values.
pub fn compare_values(a: &Node, b: &Node) -> (ordering: Ordering)
    ensures
        ordering == value_ordering(a@, b@),
{
    match (a, b) {
        (Node::Bool(x), Node::Bool(y)) => {
            if *x == *y {
                Ordering::Equal
            } else if *y {
                Ordering::Less
            } else {
                Ordering::Greater
            }
        },
        (Node::Float64(x), Node::Float64(y)) => {
            let rank_x = float_rank_of(x.bits);
            let rank_y = float_rank_of(y.bits);
            if rank_x < rank_y {
                Ordering::Less
            } else if rank_x == rank_y {
                Ordering::Equal
            } else {
                Ordering::Greater
            }
        },
        (Node::Int64(x), Node::Int64(y)) => {
            if *x < *y {
                Ordering::Less
            } else if *x == *y {
                Ordering::Equal
            } else {
                Ordering::Greater
            }
        },
        (Node::UInt64(x), Node::UInt64(y)) => {
            if *x < *y {
                Ordering::Less
            } else if *x == *y {
                Ordering::Equal
            } else {
                Ordering::Greater
            }
        },
        (Node::Str(x), Node::Str(y)) => compare_text(x.as_str(), y.as_str()),
        _ => Ordering::Equal,
    }
}

/// Tells whether `direction` asks for the descending order.
pub fn descending(direction: &str) -> (desc: bool)
    ensures
        desc == is_descending(direction@),
{
    String::from_str(direction) == String::from_str("desc")
}

/// `ordering` as it is, or reversed where `descending` is set.
pub fn direct(ordering: Ordering, descending: bool) -> (result: Ordering)
    ensures
        result == directed(ordering, descending),
{
    if descending {
        match ordering {
            Ordering::Less => Ordering::Greater,
            Ordering::Equal => Ordering::Equal,
            Ordering::Greater => Ordering::Less,
        }
    } else {
        ordering
    }
}

/// Orders two records by what they hold in the field `column`. `direction`
/// `desc` reverses the order; any other direction leaves it ascending. Where
/// one of the records has no field `column` the two cannot be ordered, and
/// the result is `None`.
pub fn compare(record_a: &Record, record_b: &Record, column: &str, direction: &str) -> (ordering:
    Option<Ordering>)
    ensures
        ordering == record_ordering(record_a@, record_b@, column@, direction@),
{
    match (record_a.get(column), record_b.get(column)) {
        (Some(x), Some(y)) => Some(direct(compare_values(x, y), descending(direction))),
        _ => None,
    }
}

/// Tells whether the sort key `x` has to stand behind the sort key `y`.
pub fn stands_after(x: &Node, y: &Node, descending: bool) -> (after: bool)
    ensures
        after == key_after(x@, y@, descending),
{
    match direct(compare_values(x, y), descending) {
        Ordering::Greater => true,
        _ => false,
    }
}

/// What the sort asks of two keys is what the order of their records says:
/// a record has to stand behind another exactly if it is the greater one, and
/// their keys count as equal exactly if the records are equal in either
/// direction.
pub proof fn lemma_keys_follow_records(
    a: Fields,
    b: Fields,
    column: Seq<char>,
    direction: Seq<char>,
)
    requires
        lookup(a, column) is Some,
        lookup(b, column) is Some,
    ensures
        key_after(lookup(a, column)->0, lookup(b, column)->0, is_descending(direction))
            <==> record_ordering(a, b, column, direction) == Some(Ordering::Greater),
        key_tie(lookup(a, column)->0, lookup(b, column)->0) <==> record_ordering(
            a,
            b,
            column,
            direction,
        ) == Some(Ordering::Equal),
{
}

/// Exchanging two texts reverses their order.
pub proof fn lemma_text_ordering_antisymmetric(x: Seq<char>, y: Seq<char>)
    ensures
        text_ordering(y, x) == reversed(text_ordering(x, y)),
{
    lemma_common_prefix(x, y);
    lemma_common_prefix_is(y, x, common_prefix(x, y));
}

/// Exchanging two values reverses their order, whatever their kinds.
pub proof fn lemma_value_ordering_antisymmetric(a: Json, b: Json)
    ensures
        value_ordering(b, a) == reversed(value_ordering(a, b)),
{
    match (a, b) {
        (Json::Str(x), Json::Str(y)) => {
            lemma_text_ordering_antisymmetric(x, y);
        },
        _ => {},
    }
}

/// Of two sort keys at most one has to stand behind the other, and neither
/// where they count as equal; to count as equal does not depend on which of
/// them comes first.
pub proof fn lemma_key_after_antisymmetric(x: Json, y: Json, descending: bool)
    ensures
        key_after(x, y, descending) ==> !key_after(y, x, descending),
        key_tie(x, y) ==> key_tie(y, x) && !key_after(x, y, descending) && !key_after(
            y,
            x,
            descending,
        ),
{
    lemma_value_ordering_antisymmetric(x, y);
}

/// Whether `x` and `y` are of one kind, and of one that has an order: two
/// booleans, two signed integers, two unsigned integers, two doubles or two
/// texts.
pub open spec fn comparable(x: Json, y: Json) -> bool {
    match (x, y) {
        (Json::Bool(_), Json::Bool(_)) => true,
        (Json::Float64 { .. }, Json::Float64 { .. }) => true,
        (Json::Int64(_), Json::Int64(_)) => true,
        (Json::UInt64(_), Json::UInt64(_)) => true,
        (Json::Str(_), Json::Str(_)) => true,
        _ => false,
    }
}

/// Two texts count as equal exactly if they are the same text.
pub proof fn lemma_text_ordering_equal(x: Seq<char>, y: Seq<char>)
    ensures
        text_ordering(x, y) == Ordering::Equal <==> x == y,
{
    lemma_common_prefix(x, y);
    if text_ordering(x, y) == Ordering::Equal {
        assert(x =~= y);
    }
    if x == y {
        lemma_common_prefix_same(x);
    }
}

/// A text that comes before another, which comes before a third, comes
/// before the third.
pub proof fn lemma_text_ordering_transitive(x: Seq<char>, y: Seq<char>, z: Seq<char>)
    requires
        text_ordering(x, y) == Ordering::Less,
        text_ordering(y, z) == Ordering::Less,
    ensures
        text_ordering(x, z) == Ordering::Less,
{
    lemma_common_prefix(x, y);
    lemma_common_prefix(y, z);
    let k1 = common_prefix(x, y);
    let k2 = common_prefix(y, z);
    let k = if k1 < k2 {
        k1
    } else {
        k2
    };
    assert forall|j: int| 0 <= j < k implies x[j] == z[j] by {
        assert(x[j] == y[j]);
        assert(y[j] == z[j]);
    }
    if k1 < k2 {
        assert(y[k1] == z[k1]);
    } else if k2 < k1 {
        assert(x[k2] == y[k2]);
    }
    lemma_common_prefix_is(x, z, k);
}

/// Among values of one kind that has an order, the order is transitive.
pub proof fn lemma_value_ordering_transitive(a: Json, b: Json, c: Json)
    requires
        comparable(a, b),
        comparable(b, c),
        value_ordering(a, b) != Ordering::Greater,
        value_ordering(b, c) != Ordering::Greater,
    ensures
        value_ordering(a, c) != Ordering::Greater,
{
    match (a, b, c) {
        (Json::Str(x), Json::Str(y), Json::Str(z)) => {
            lemma_text_ordering_equal(x, y);
            lemma_text_ordering_equal(y, z);
            lemma_text_ordering_equal(x, z);
            if x != y && y != z {
                lemma_text_ordering_transitive(x, y, z);
            }
        },
        _ => {},
    }
}

/// Among sort keys of one kind that has an order: where the first of three
/// need not stand behind the second, nor the second behind the third, the
/// first need not stand behind the third.
pub proof fn lemma_key_after_transitive(x: Json, y: Json, z: Json, descending: bool)
    requires
        comparable(x, y),
        comparable(y, z),
        !key_after(x, y, descending),
        !key_after(y, z, descending),
    ensures
        !key_after(x, z, descending),
{
    if descending {
        lemma_value_ordering_antisymmetric(x, y);
        lemma_value_ordering_antisymmetric(y, z);
        lemma_value_ordering_antisymmetric(x, z);
        lemma_value_ordering_transitive(z, y, x);
    } else {
        lemma_value_ordering_transitive(x, y, z);
    }
}

/// To stand behind in the descending order is to stand before in the
/// ascending one; and two sort keys that do not count as equal are ordered in
/// one of the two ways.
pub proof fn lemma_key_directions(x: Json, y: Json)
    ensures
        key_after(x, y, true) <==> key_after(y, x, false),
        key_tie(x, y) || key_after(x, y, false) || key_after(x, y, true),
{
    lemma_value_ordering_antisymmetric(x, y);
}

/// The descending order of two records is the reverse of their order in any
/// other direction, and both are defined for the same records.
pub proof fn lemma_descending_reverses(
    a: Fields,
    b: Fields,
    column: Seq<char>,
    direction: Seq<char>,
)
    requires
        !is_descending(direction),
    ensures
        record_ordering(a, b, column, "desc"@) == match record_ordering(a, b, column, direction) {
            Some(ordering) => Some(reversed(ordering)),
            None => None,
        },
{
}

/// `asc` is not the descending direction.
pub proof fn lemma_asc_is_ascending()
    ensures
        !is_descending("asc"@),
{
    reveal_strlit("asc");
    reveal_strlit("desc");
    assert("asc"@.len() == 3);
    assert("desc"@.len() == 4);
}

} // verus!
