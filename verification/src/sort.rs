use crate::error::TableError;
use crate::order::{
    comparable, descending, is_descending, key_after, key_tie, lemma_key_after_antisymmetric,
    lemma_key_after_transitive, lemma_key_directions, stands_after,
};
use crate::value::{lookup, Fields, Json, Record, Node};
use vstd::prelude::*;

verus! {

/// Where the key at position `x` goes into `order`, a sequence of positions
/// of `keys`: behind the last position whose key does not have to stand
/// behind it.
pub open spec fn insert_position(keys: Seq<Json>, order: Seq<int>, x: int, descending: bool) -> int
    decreases order.len(),
{
    if order.len() > 0 && key_after(keys[order.last()], keys[x], descending) {
        insert_position(keys, order.drop_last(), x, descending)
    } else {
        order.len() as int
    }
}

/// The order in which a stable sort puts the first `n` of `keys`: the
/// positions `0..n`, each inserted in turn into the order of those before it.
pub open spec fn insertion_order(keys: Seq<Json>, n: nat, descending: bool) -> Seq<int>
    decreases n,
{
    if n == 0 {
        Seq::empty()
    } else {
        let before = insertion_order(keys, (n - 1) as nat, descending);
        before.insert(insert_position(keys, before, n - 1, descending), n - 1)
    }
}

/// The order in which a stable sort puts `keys`, as a sequence of positions
/// of `keys`.
pub open spec fn stable_order(keys: Seq<Json>, descending: bool) -> Seq<int> {
    insertion_order(keys, keys.len(), descending)
}

/// `items` in the order `order`, a sequence of positions of `items`.
pub open spec fn arranged<A>(items: Seq<A>, order: Seq<int>) -> Seq<A> {
    Seq::new(order.len(), |p: int| items[order[p]])
}

/// Whether every one of `rows` has a field named `column`.
pub open spec fn all_have(rows: Seq<Fields>, column: Seq<char>) -> bool {
    forall|i: int| 0 <= i < rows.len() ==> (#[trigger] lookup(rows[i], column)) is Some
}

/// What each of `rows` holds in the field `column`.
pub open spec fn sort_keys(rows: Seq<Fields>, column: Seq<char>) -> Seq<Json> {
    Seq::new(rows.len(), |i: int| lookup(rows[i], column)->0)
}

/// `rows` sorted by the field `column` in the direction `direction`, rows
/// whose keys count as equal staying in the order in which they came.
pub open spec fn sorted_rows(rows: Seq<Fields>, column: Seq<char>, direction: Seq<char>) -> Seq<
    Fields,
> {
    arranged(rows, stable_order(sort_keys(rows, column), is_descending(direction)))
}

/// The fields of each of `rows`.
pub open spec fn row_fields(rows: Seq<&Record>) -> Seq<Fields> {
    Seq::new(rows.len(), |i: int| rows[i]@)
}

/// The content of each of `keys`.
pub open spec fn key_contents(keys: Seq<&Node>) -> Seq<Json> {
    Seq::new(keys.len(), |i: int| keys[i]@)
}

/// `order` as a sequence of integers.
pub open spec fn positions(order: Seq<usize>) -> Seq<int> {
    Seq::new(order.len(), |i: int| order[i] as int)
}

/// What the place found for a key is: every key behind it has to stand behind
/// the new key, and the key just before it does not.
pub proof fn lemma_insert_position(keys: Seq<Json>, order: Seq<int>, x: int, descending: bool)
    ensures
        0 <= insert_position(keys, order, x, descending) <= order.len(),
        forall|j: int|
            insert_position(keys, order, x, descending) <= j < order.len() ==> key_after(
                keys[#[trigger] order[j]],
                keys[x],
                descending,
            ),
        insert_position(keys, order, x, descending) > 0 ==> !key_after(
            keys[order[insert_position(keys, order, x, descending) - 1]],
            keys[x],
            descending,
        ),
    decreases order.len(),
{
    if order.len() > 0 && key_after(keys[order.last()], keys[x], descending) {
        let shorter = order.drop_last();
        lemma_insert_position(keys, shorter, x, descending);
        let pos = insert_position(keys, shorter, x, descending);
        assert forall|j: int| pos <= j < order.len() implies key_after(
            keys[#[trigger] order[j]],
            keys[x],
            descending,
        ) by {
            if j < shorter.len() {
                assert(shorter[j] == order[j]);
            }
        }
        if pos > 0 {
            assert(shorter[pos - 1] == order[pos - 1]);
        }
    }
}

/// The place found for a key is the only one of which both hold.
pub proof fn lemma_insert_position_is(
    keys: Seq<Json>,
    order: Seq<int>,
    x: int,
    descending: bool,
    pos: int,
)
    requires
        0 <= pos <= order.len(),
        forall|j: int|
            pos <= j < order.len() ==> key_after(keys[#[trigger] order[j]], keys[x], descending),
        pos > 0 ==> !key_after(keys[order[pos - 1]], keys[x], descending),
    ensures
        insert_position(keys, order, x, descending) == pos,
    decreases order.len(),
{
    if pos < order.len() {
        assert(key_after(keys[order[order.len() - 1]], keys[x], descending));
        let shorter = order.drop_last();
        assert forall|j: int| pos <= j < shorter.len() implies key_after(
            keys[#[trigger] shorter[j]],
            keys[x],
            descending,
        ) by {
            assert(shorter[j] == order[j]);
        }
        lemma_insert_position_is(keys, shorter, x, descending, pos);
    }
}

/// What holds of the order of a stable sort, whatever the keys are. It is a
/// permutation: it holds each position below `n` exactly once. Neighbours are
/// in order: no key has to stand behind the one that follows it. And a key
/// stands before one that came earlier only where the earlier one has to
/// stand behind it.
pub proof fn lemma_insertion_order(keys: Seq<Json>, n: nat, descending: bool)
    requires
        n <= keys.len(),
    ensures
        insertion_order(keys, n, descending).len() == n,
        forall|p: int| 0 <= p < n ==> 0 <= #[trigger] insertion_order(keys, n, descending)[p] < n,
        forall|p: int, q: int|
            0 <= p < q < n ==> #[trigger] insertion_order(keys, n, descending)[p]
                != #[trigger] insertion_order(keys, n, descending)[q],
        forall|i: int| 0 <= i < n ==> #[trigger] insertion_order(keys, n, descending).contains(i),
        forall|p: int|
            0 <= p && p + 1 < n ==> !key_after(
                keys[#[trigger] insertion_order(keys, n, descending)[p]],
                keys[insertion_order(keys, n, descending)[p + 1]],
                descending,
            ),
        forall|p: int, q: int|
            0 <= p < q < n && #[trigger] insertion_order(keys, n, descending)[p]
                > #[trigger] insertion_order(keys, n, descending)[q] ==> key_after(
                keys[insertion_order(keys, n, descending)[q]],
                keys[insertion_order(keys, n, descending)[p]],
                descending,
            ),
    decreases n,
{
    if n > 0 {
        let before = insertion_order(keys, (n - 1) as nat, descending);
        let x = n - 1;
        let pos = insert_position(keys, before, x, descending);
        let order = insertion_order(keys, n, descending);
        lemma_insertion_order(keys, (n - 1) as nat, descending);
        lemma_insert_position(keys, before, x, descending);
        assert(order == before.insert(pos, x));
        assert(order.len() == n);
        assert forall|p: int| 0 <= p < n implies order[p] == (if p < pos {
            before[p]
        } else if p == pos {
            x
        } else {
            before[p - 1]
        }) by {}
        assert forall|p: int| 0 <= p < n implies 0 <= #[trigger] order[p] < n by {}
        assert forall|p: int, q: int| 0 <= p < q < n implies #[trigger] order[p]
            != #[trigger] order[q] by {}
        assert forall|i: int| 0 <= i < n implies #[trigger] order.contains(i) by {
            if i == x {
                assert(order[pos] == i);
            } else {
                assert(before.contains(i));
                let p0 = choose|p: int| 0 <= p < before.len() && before[p] == i;
                if p0 < pos {
                    assert(order[p0] == i);
                } else {
                    assert(order[p0 + 1] == i);
                }
            }
        }
        assert forall|p: int| 0 <= p && p + 1 < n implies !key_after(
            keys[#[trigger] order[p]],
            keys[order[p + 1]],
            descending,
        ) by {
            if p + 1 < pos {
                assert(order[p] == before[p]);
            } else if p + 1 == pos {
            } else if p == pos {
                assert(key_after(keys[before[pos]], keys[x], descending));
                lemma_key_after_antisymmetric(keys[before[pos]], keys[x], descending);
            } else {
                assert(order[p] == before[p - 1]);
                assert(order[p + 1] == before[p]);
            }
        }
        assert forall|p: int, q: int|
            0 <= p < q < n && #[trigger] order[p] > #[trigger] order[q] implies key_after(
            keys[order[q]],
            keys[order[p]],
            descending,
        ) by {
            if p == pos {
                assert(order[q] == before[q - 1]);
            } else if q == pos {
            } else {
                let p0 = if p < pos {
                    p
                } else {
                    p - 1
                };
                let q0 = if q < pos {
                    q
                } else {
                    q - 1
                };
                assert(order[p] == before[p0]);
                assert(order[q] == before[q0]);
            }
        }
    }
}

/// A stable sort keeps rows whose keys count as equal in the order in which
/// they came, in either direction: of two positions of its order whose keys
/// count as equal, the one that stands first is the smaller.
pub proof fn lemma_stable_order_is_stable(keys: Seq<Json>, descending: bool, p: int, q: int)
    requires
        0 <= p < q < keys.len(),
        key_tie(
            keys[stable_order(keys, descending)[p]],
            keys[stable_order(keys, descending)[q]],
        ),
    ensures
        stable_order(keys, descending)[p] < stable_order(keys, descending)[q],
{
    let order = stable_order(keys, descending);
    lemma_insertion_order(keys, keys.len(), descending);
    assert(order[p] != order[q]);
    lemma_key_after_antisymmetric(keys[order[p]], keys[order[q]], descending);
}

/// Of two keys that count as equal, the one that came first stands first
/// in the order of a stable sort, in either direction.
pub proof fn lemma_ties_keep_their_order(keys: Seq<Json>, descending: bool, i: int, j: int)
    requires
        0 <= i < j < keys.len(),
        key_tie(keys[i], keys[j]),
    ensures
        exists|p: int, q: int|
            0 <= p < q < keys.len() && #[trigger] stable_order(keys, descending)[p] == i
                && #[trigger] stable_order(keys, descending)[q] == j,
{
    let order = stable_order(keys, descending);
    lemma_insertion_order(keys, keys.len(), descending);
    assert(order.contains(i));
    assert(order.contains(j));
    let p = choose|p: int| 0 <= p < order.len() && order[p] == i;
    let q = choose|q: int| 0 <= q < order.len() && order[q] == j;
    if q < p {
        lemma_key_after_antisymmetric(keys[i], keys[j], descending);
        lemma_stable_order_is_stable(keys, descending, q, p);
    }
    assert(order[p] == i && order[q] == j);
}

/// Whether all of `keys` are of one kind, and of one that has an order.
pub open spec fn uniform(keys: Seq<Json>) -> bool {
    forall|i: int, j: int|
        0 <= i < keys.len() && 0 <= j < keys.len() ==> comparable(
            #[trigger] keys[i],
            #[trigger] keys[j],
        )
}

/// Whether no two of `keys` count as equal.
pub open spec fn distinct(keys: Seq<Json>) -> bool {
    forall|i: int, j: int|
        0 <= i < j < keys.len() ==> !key_tie(#[trigger] keys[i], #[trigger] keys[j])
}

/// Whether `order` holds each position of `keys` exactly once.
pub open spec fn is_permutation(keys: Seq<Json>, order: Seq<int>) -> bool {
    &&& order.len() == keys.len()
    &&& forall|p: int| 0 <= p < order.len() ==> 0 <= #[trigger] order[p] < keys.len()
    &&& forall|p: int, q: int|
        0 <= p < q < order.len() ==> #[trigger] order[p] != #[trigger] order[q]
    &&& forall|i: int| 0 <= i < keys.len() ==> #[trigger] order.contains(i)
}

/// Whether of any two keys that `order` holds the first has to stand behind
/// the second in the ascending order: the keys fall strictly.
pub open spec fn strictly_falling(keys: Seq<Json>, order: Seq<int>) -> bool {
    forall|p: int, q: int|
        0 <= p < q < order.len() ==> key_after(
            keys[#[trigger] order[p]],
            keys[#[trigger] order[q]],
            false,
        )
}

proof fn lemma_ordered_between(keys: Seq<Json>, descending: bool, p: int, q: int)
    requires
        uniform(keys),
        0 <= p < q < keys.len(),
    ensures
        !key_after(
            keys[stable_order(keys, descending)[p]],
            keys[stable_order(keys, descending)[q]],
            descending,
        ),
    decreases q - p,
{
    let order = stable_order(keys, descending);
    lemma_insertion_order(keys, keys.len(), descending);
    assert(0 <= order[p] < keys.len());
    assert(0 <= order[q] < keys.len());
    if q > p + 1 {
        lemma_ordered_between(keys, descending, p, q - 1);
        assert(0 <= order[q - 1] < keys.len());
        assert(!key_after(keys[order[q - 1]], keys[order[q - 1 + 1]], descending));
        lemma_key_after_transitive(
            keys[order[p]],
            keys[order[q - 1]],
            keys[order[q]],
            descending,
        );
    }
}

/// Keys of one kind that has an order are sorted throughout: in the order
/// of a stable sort none of them has to stand behind one that follows it.
pub proof fn lemma_sorted_when_uniform(keys: Seq<Json>, descending: bool)
    requires
        uniform(keys),
    ensures
        forall|p: int, q: int|
            0 <= p < q < keys.len() ==> !key_after(
                keys[#[trigger] stable_order(keys, descending)[p]],
                keys[#[trigger] stable_order(keys, descending)[q]],
                descending,
            ),
{
    assert forall|p: int, q: int| 0 <= p < q < keys.len() implies !key_after(
        keys[#[trigger] stable_order(keys, descending)[p]],
        keys[#[trigger] stable_order(keys, descending)[q]],
        descending,
    ) by {
        lemma_ordered_between(keys, descending, p, q);
    }
}

proof fn lemma_agree_before(keys: Seq<Json>, s: Seq<int>, t: Seq<int>, p: int)
    requires
        is_permutation(keys, s),
        is_permutation(keys, t),
        strictly_falling(keys, s),
        strictly_falling(keys, t),
        0 <= p <= keys.len(),
    ensures
        forall|k: int| 0 <= k < p ==> s[k] == t[k],
    decreases p,
{
    if p > 0 {
        lemma_agree_before(keys, s, t, p - 1);
        let m = p - 1;
        let a = s[m];
        let b = t[m];
        if a != b {
            assert(t.contains(a));
            let q = choose|q: int| 0 <= q < t.len() && t[q] == a;
            if q < m {
                assert(s[q] == t[q]);
            }
            assert(q > m);
            assert(key_after(keys[t[m]], keys[t[q]], false));
            assert(s.contains(b));
            let r = choose|r: int| 0 <= r < s.len() && s[r] == b;
            if r < m {
                assert(t[r] == s[r]);
            }
            assert(r > m);
            assert(key_after(keys[s[m]], keys[s[r]], false));
            lemma_key_after_antisymmetric(keys[a], keys[b], false);
        }
    }
}

/// Keys that fall strictly can be put in one order only.
pub proof fn lemma_strictly_falling_is_unique(keys: Seq<Json>, s: Seq<int>, t: Seq<int>)
    requires
        is_permutation(keys, s),
        is_permutation(keys, t),
        strictly_falling(keys, s),
        strictly_falling(keys, t),
    ensures
        s == t,
{
    lemma_agree_before(keys, s, t, keys.len() as int);
    assert(s =~= t);
}

/// Where the keys are of one kind that has an order, and no two of them
/// count as equal, the descending order is the ascending order read
/// backwards.
pub proof fn lemma_descending_is_reverse(keys: Seq<Json>)
    requires
        uniform(keys),
        distinct(keys),
    ensures
        stable_order(keys, true) == stable_order(keys, false).reverse(),
{
    let n = keys.len() as int;
    let up = stable_order(keys, false);
    let down = stable_order(keys, true);
    let back = up.reverse();
    lemma_insertion_order(keys, keys.len(), false);
    lemma_insertion_order(keys, keys.len(), true);
    lemma_sorted_when_uniform(keys, false);
    lemma_sorted_when_uniform(keys, true);
    assert forall|p: int| 0 <= p < n implies #[trigger] back[p] == up[n - 1 - p] by {}
    assert forall|i: int| 0 <= i < n implies #[trigger] back.contains(i) by {
        assert(up.contains(i));
        let p = choose|p: int| 0 <= p < up.len() && up[p] == i;
        assert(back[n - 1 - p] == i);
    }
    assert(is_permutation(keys, back));
    assert(is_permutation(keys, down));
    assert forall|p: int, q: int| 0 <= p < q < n implies key_after(
        keys[#[trigger] down[p]],
        keys[#[trigger] down[q]],
        false,
    ) by {
        let a = down[p];
        let b = down[q];
        assert(a != b);
        lemma_key_directions(keys[a], keys[b]);
        lemma_key_directions(keys[b], keys[a]);
        lemma_key_after_antisymmetric(keys[a], keys[b], true);
        if a < b {
            assert(!key_tie(keys[a], keys[b]));
        } else {
            assert(!key_tie(keys[b], keys[a]));
        }
    }
    assert forall|p: int, q: int| 0 <= p < q < n implies key_after(
        keys[#[trigger] back[p]],
        keys[#[trigger] back[q]],
        false,
    ) by {
        let a = back[p];
        let b = back[q];
        assert(a == up[n - 1 - p]);
        assert(b == up[n - 1 - q]);
        assert(a != b);
        assert(!key_after(keys[b], keys[a], false));
        lemma_key_directions(keys[a], keys[b]);
        lemma_key_directions(keys[b], keys[a]);
        lemma_key_after_antisymmetric(keys[a], keys[b], false);
        if a < b {
            assert(!key_tie(keys[a], keys[b]));
        } else {
            assert(!key_tie(keys[b], keys[a]));
        }
    }
    lemma_strictly_falling_is_unique(keys, down, back);
}

/// Rows whose keys are of one kind that has an order, no two of them
/// counting as equal, come in the descending order as in the ascending order
/// read backwards.
pub proof fn lemma_sorted_rows_descending_is_reverse(
    rows: Seq<Fields>,
    column: Seq<char>,
    direction: Seq<char>,
)
    requires
        uniform(sort_keys(rows, column)),
        distinct(sort_keys(rows, column)),
        !is_descending(direction),
    ensures
        sorted_rows(rows, column, "desc"@) == sorted_rows(rows, column, direction).reverse(),
{
    let keys = sort_keys(rows, column);
    lemma_descending_is_reverse(keys);
    lemma_insertion_order(keys, keys.len(), false);
    let up = stable_order(keys, false);
    assert(arranged(rows, up.reverse()) =~= arranged(rows, up).reverse());
}

/// Of two rows whose keys count as equal, the one that came first is shown
/// first, whatever the direction of the sort.
pub proof fn lemma_sorted_rows_are_stable(
    rows: Seq<Fields>,
    column: Seq<char>,
    direction: Seq<char>,
    i: int,
    j: int,
)
    requires
        0 <= i < j < rows.len(),
        key_tie(sort_keys(rows, column)[i], sort_keys(rows, column)[j]),
    ensures
        exists|p: int, q: int|
            0 <= p < q < rows.len() && #[trigger] stable_order(
                sort_keys(rows, column),
                is_descending(direction),
            )[p] == i && #[trigger] stable_order(
                sort_keys(rows, column),
                is_descending(direction),
            )[q] == j && sorted_rows(rows, column, direction)[p] == rows[i] && sorted_rows(
                rows,
                column,
                direction,
            )[q] == rows[j],
{
    let keys = sort_keys(rows, column);
    let descending = is_descending(direction);
    lemma_insertion_order(keys, keys.len(), descending);
    lemma_ties_keep_their_order(keys, descending, i, j);
    let order = stable_order(keys, descending);
    let (p, q) = choose|p: int, q: int|
        0 <= p < q < keys.len() && #[trigger] order[p] == i && #[trigger] order[q] == j;
    assert(sorted_rows(rows, column, direction)[p] == rows[i]);
    assert(sorted_rows(rows, column, direction)[q] == rows[j]);
}

/// The order in which a stable sort puts `keys`.
pub fn sort_order(keys: &Vec<&Node>, descending: bool) -> (order: Vec<usize>)
    ensures
        positions(order@) == stable_order(key_contents(keys@), descending),
        order@.len() == keys@.len(),
        forall|p: int| 0 <= p < order@.len() ==> #[trigger] order@[p] < keys@.len(),
{
    let ghost contents = key_contents(keys@);
    let mut order: Vec<usize> = Vec::new();
    let mut i: usize = 0;
    proof {
        assert(positions(order@) =~= insertion_order(contents, 0, descending));
    }
    while i < keys.len()
        invariant
            i <= keys@.len(),
            contents == key_contents(keys@),
            order@.len() == i,
            forall|p: int| 0 <= p < order@.len() ==> #[trigger] order@[p] < i,
            positions(order@) == insertion_order(contents, i as nat, descending),
        decreases keys@.len() - i,
    {
        let ghost before = positions(order@);
        let mut pos: usize = order.len();
        while pos > 0 && stands_after(keys[order[pos - 1]], keys[i], descending)
            invariant
                i < keys@.len(),
                contents == key_contents(keys@),
                pos <= order@.len(),
                before == positions(order@),
                forall|p: int| 0 <= p < order@.len() ==> #[trigger] order@[p] < i,
                forall|j: int|
                    pos <= j < before.len() ==> key_after(
                        contents[#[trigger] before[j]],
                        contents[i as int],
                        descending,
                    ),
            decreases pos,
        {
            proof {
                assert(before[pos - 1] == order@[pos - 1]);
            }
            pos -= 1;
        }
        proof {
            if pos > 0 {
                assert(before[pos - 1] == order@[pos - 1]);
            }
            lemma_insert_position_is(contents, before, i as int, descending, pos as int);
        }
        order.insert(pos, i);
        proof {
            assert(positions(order@) =~= before.insert(pos as int, i as int));
        }
        i += 1;
    }
    order
}

/// The rows `rows` sorted by what they hold in the field `column`:
/// ascending, or descending where `direction` is `desc`. It fails where two
/// or more rows are to be ordered and one of them has no field `column`.
///
/// The sort is by insertion. Values of different kinds count as equal, so
/// the order of the keys need not be transitive; a sort by insertion is
/// stable all the same, and leaves every row in order with the next one. The
/// time it takes grows with the square of the number of rows.
pub fn sort_rows<'a>(rows: Vec<&'a Record>, column: &str, direction: &str) -> (sorted: Result<
    Vec<&'a Record>,
    TableError,
>)
    ensures
        sorted is Err <==> rows@.len() >= 2 && !all_have(row_fields(rows@), column@),
        sorted matches Err(error) ==> error == TableError::MissingSortColumn,
        sorted matches Ok(out) ==> row_fields(out@) == sorted_rows(
            row_fields(rows@),
            column@,
            direction@,
        ),
{
    let ghost fields = row_fields(rows@);
    let n = rows.len();
    if n < 2 {
        proof {
            lemma_short_order(sort_keys(fields, column@), is_descending(direction@));
            assert(row_fields(rows@) =~= sorted_rows(fields, column@, direction@));
        }
        return Ok(rows);
    }
    let mut keys: Vec<&Node> = Vec::new();
    let mut i: usize = 0;
    while i < n
        invariant
            n == rows@.len(),
            n >= 2,
            fields == row_fields(rows@),
            i <= n,
            keys@.len() == i,
            forall|j: int| 0 <= j < i ==> lookup(fields[j], column@) == Some(keys@[j]@),
        decreases n - i,
    {
        match rows[i].get(column) {
            Some(key) => {
                keys.push(key);
            },
            None => {
                proof {
                    assert(lookup(fields[i as int], column@) is None);
                }
                return Err(TableError::MissingSortColumn);
            },
        }
        i += 1;
    }
    proof {
        assert(key_contents(keys@) =~= sort_keys(fields, column@));
    }
    let order = sort_order(&keys, descending(direction));
    let mut out: Vec<&'a Record> = Vec::new();
    let mut p: usize = 0;
    while p < n
        invariant
            n == rows@.len(),
            order@.len() == n,
            forall|q: int| 0 <= q < order@.len() ==> #[trigger] order@[q] < n,
            p <= n,
            out@.len() == p,
            forall|q: int| 0 <= q < p ==> out@[q] == rows@[order@[q] as int],
        decreases n - p,
    {
        out.push(rows[order[p]]);
        p += 1;
    }
    proof {
        let spec_order = stable_order(sort_keys(fields, column@), is_descending(direction@));
        assert(positions(order@) == spec_order);
        assert forall|q: int| 0 <= q < n implies row_fields(out@)[q] == sorted_rows(
            fields,
            column@,
            direction@,
        )[q] by {
            assert(positions(order@)[q] == order@[q] as int);
        }
        assert(row_fields(out@) =~= sorted_rows(fields, column@, direction@));
    }
    Ok(out)
}

/// Fewer than two keys are in order as they stand.
pub proof fn lemma_short_order(keys: Seq<Json>, descending: bool)
    requires
        keys.len() < 2,
    ensures
        stable_order(keys, descending) == Seq::new(keys.len(), |i: int| i),
{
    if keys.len() == 1 {
        let before = insertion_order(keys, 0, descending);
        assert(before.len() == 0);
        assert(insert_position(keys, before, 0, descending) == 0);
        assert(insertion_order(keys, 1, descending) == before.insert(0, 0));
        assert(before.insert(0, 0) =~= Seq::new(1, |i: int| i));
    } else {
        assert(stable_order(keys, descending) =~= Seq::new(0, |i: int| i));
    }
}

} // verus!
