use crate::sort::row_fields;
use crate::value::{contents, Fields, Json, Record, Node};
use vstd::prelude::*;

verus! {

/// How many rows are shown where no limit is asked for: more than any
/// document that is looked at in a table holds.
pub const TAKE_ALL: usize = 999_999_999;

/// How many rows a page holds where no page size is asked for.
pub const DEFAULT_PAGE_SIZE: usize = 10;

/// The records among `items`, in their order: what is no object is left
/// out.
pub open spec fn records_of(items: Seq<Json>) -> Seq<Fields>
    decreases items.len(),
{
    if items.len() == 0 {
        Seq::empty()
    } else {
        let before = records_of(items.drop_last());
        match items.last() {
            Json::Object(fields) => before.push(fields),
            _ => before,
        }
    }
}

/// What is left of `rows` when the first `skip` are dropped and of the rest
/// at most `take` are kept.
pub open spec fn window<A>(rows: Seq<A>, skip: nat, take: nat) -> Seq<A> {
    let from = if skip < rows.len() {
        skip
    } else {
        rows.len()
    };
    let to = if skip + take < rows.len() {
        skip + take
    } else {
        rows.len()
    };
    rows.subrange(from as int, to as int)
}

/// The rows that a table shows of `items`: the records among them, without
/// the first `skip`, and of the rest at most `take`.
pub open spec fn selected_rows(items: Seq<Json>, skip: nat, take: nat) -> Seq<Fields> {
    window(records_of(items), skip, take)
}

/// The records among `items` are no more than the items.
pub proof fn lemma_records_of_len(items: Seq<Json>)
    ensures
        records_of(items).len() <= items.len(),
    decreases items.len(),
{
    if items.len() > 0 {
        lemma_records_of_len(items.drop_last());
    }
}

/// Row `i` of a window is row `skip + i` of what it was cut from; the window
/// has `take` rows where that many are left behind the first `skip`, and
/// else those that are left.
pub proof fn lemma_window<A>(rows: Seq<A>, skip: nat, take: nat)
    ensures
        skip >= rows.len() ==> window(rows, skip, take).len() == 0,
        skip < rows.len() ==> window(rows, skip, take).len() == if take < rows.len() - skip {
            take as int
        } else {
            rows.len() - skip
        },
        forall|i: int|
            0 <= i < window(rows, skip, take).len() ==> #[trigger] window(rows, skip, take)[i]
                == rows[skip + i],
{
}

/// Of `n` records a table shows those from position `skip` up to, and
/// without, position `skip + take`, as far as there are any: none where
/// `skip` is `n` or more.
pub proof fn lemma_selected_rows(items: Seq<Json>, skip: nat, take: nat)
    ensures
        skip >= records_of(items).len() ==> selected_rows(items, skip, take).len() == 0,
        skip < records_of(items).len() ==> selected_rows(items, skip, take).len() == if take
            < records_of(items).len() - skip {
            take as int
        } else {
            records_of(items).len() - skip
        },
        forall|i: int|
            0 <= i < selected_rows(items, skip, take).len() ==> #[trigger] selected_rows(
                items,
                skip,
                take,
            )[i] == records_of(items)[skip + i],
{
    lemma_window(records_of(items), skip, take);
}

/// A skip that is no less than the number of rows stands for every greater
/// one: beyond the last row nothing is left to drop.
pub proof fn lemma_window_beyond<A>(rows: Seq<A>, skip: nat, beyond: nat, take: nat)
    requires
        skip >= rows.len(),
        beyond >= rows.len(),
    ensures
        window(rows, skip, take) == window(rows, beyond, take),
{
}

/// The rows of `records` that a table shows: the records among them in their
/// order, without the first `skip`, and of the rest at most `take`. Nothing
/// is sorted here.
pub fn select_rows<'a>(records: &'a Vec<Node>, skip: usize, take: usize) -> (rows: Vec<
    &'a Record,
>)
    ensures
        row_fields(rows@) == selected_rows(contents(records@), skip as nat, take as nat),
{
    let ghost items = contents(records@);
    let mut rows: Vec<&'a Record> = Vec::new();
    let mut seen: usize = 0;
    let mut i: usize = 0;
    proof {
        assert(items.take(0).len() == 0);
        assert(row_fields(rows@) =~= selected_rows(items.take(0), skip as nat, take as nat));
    }
    while i < records.len()
        invariant
            items == contents(records@),
            i <= records@.len(),
            seen == records_of(items.take(i as int)).len(),
            seen <= i,
            row_fields(rows@) == selected_rows(items.take(i as int), skip as nat, take as nat),
        decreases records@.len() - i,
    {
        proof {
            assert(items.take(i + 1).drop_last() =~= items.take(i as int));
            assert(items.take(i + 1).last() == records@[i as int]@);
        }
        match &records[i] {
            Node::Object(record) => {
                let ghost before = records_of(items.take(i as int));
                if seen >= skip && seen - skip < take {
                    let ghost shown = rows@;
                    rows.push(record);
                    proof {
                        assert(records@[i as int]@ == Json::Object(record@));
                        assert(records_of(items.take(i + 1)) == before.push(record@));
                        assert(row_fields(rows@) =~= row_fields(shown).push(record@));
                        assert(window(before.push(record@), skip as nat, take as nat) =~= window(
                            before,
                            skip as nat,
                            take as nat,
                        ).push(record@));
                    }
                } else {
                    proof {
                        assert(window(before, skip as nat, take as nat) =~= window(
                            before.push(record@),
                            skip as nat,
                            take as nat,
                        ));
                    }
                }
                seen += 1;
            },
            _ => {},
        }
        i += 1;
    }
    proof {
        assert(items.take(i as int) =~= items);
    }
    rows
}

} // verus!
