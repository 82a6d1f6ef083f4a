use crate::text::{
    comma_count, lemma_split_commas_len, listed_names, split_commas, split_list, trim,
};
use crate::value::{field_names, Fields, Record};
use vstd::prelude::*;

verus! {

/// The columns of a table: the names that `explicit` lists, where there is
/// such a list, and else the names of the fields of `fields`.
pub open spec fn column_names(fields: Fields, explicit: Option<Seq<char>>) -> Seq<Seq<char>> {
    match explicit {
        Some(list) => listed_names(list),
        None => field_names(fields),
    }
}

/// The text of `text`, where there is one.
pub open spec fn text_of(text: Option<&str>) -> Option<Seq<char>> {
    match text {
        Some(t) => Some(t@),
        None => None,
    }
}

/// Without a list the columns are the names of the fields, one for each
/// field, in the order of the fields.
pub proof fn lemma_columns_of_fields(fields: Fields)
    ensures
        column_names(fields, None).len() == fields.len(),
        forall|i: int|
            0 <= i < fields.len() ==> (#[trigger] column_names(fields, None)[i]) == fields[i].0,
{
}

/// A list with `n` commas gives `n + 1` columns, whatever the fields are:
/// the pieces between the commas in their order, each without the white
/// space around it.
pub proof fn lemma_columns_of_list(fields: Fields, list: Seq<char>)
    ensures
        column_names(fields, Some(list)).len() == comma_count(list) + 1,
        split_commas(list).len() == comma_count(list) + 1,
        forall|i: int|
            0 <= i <= comma_count(list) ==> (#[trigger] column_names(fields, Some(list))[i])
                == trim(split_commas(list)[i]),
{
    lemma_split_commas_len(list);
}

/// The names of the columns of a table. Where `explicit` is a
/// comma-separated list, they are its names, each without the white space
/// around it, in the order and number in which the list gives them: a name
/// may occur twice, and none is held against the record. Where there is no
/// list, they are the names of the fields of `record`, in their order.
pub fn resolve_columns(record: &Record, explicit: Option<&str>) -> (names: Vec<String>)
    ensures
        names.deep_view() == column_names(record@, text_of(explicit)),
{
    match explicit {
        Some(list) => split_list(list),
        None => record.keys(),
    }
}

} // verus!
