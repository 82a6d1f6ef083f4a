use crate::error::TableError;
use crate::value::{contents, lemma_array_content, Fields, Float, Json, Node, Record};
use vstd::prelude::*;

verus! {

#[verifier::external_type_specification]
#[verifier::external_body]
pub struct ExJsonValue(serde_json::Value);

/// The document that the text `text` writes down, or `None` where `text` is
/// no document: what `serde_json::from_str` makes of it.
pub uninterp spec fn parsed_json(text: Seq<char>) -> Option<Json>;

/// What a `serde_json::Value` holds: the content of the node that stands
/// for it.
pub uninterp spec fn json_content(value: serde_json::Value) -> Json;

/// How deep the arrays and objects of a `serde_json::Value` are nested.
pub uninterp spec fn json_depth(value: serde_json::Value) -> nat;

/// What each of `items` holds.
pub open spec fn item_contents(items: Seq<serde_json::Value>) -> Seq<Json> {
    Seq::new(items.len(), |i: int| json_content(items[i]))
}

/// The name of each of `fields`, and what it holds.
pub open spec fn field_contents(fields: Seq<(&String, &serde_json::Value)>) -> Fields {
    Seq::new(fields.len(), |i: int| (fields[i].0@, json_content(*fields[i].1)))
}

/// `serde_json::from_str` for a `serde_json::Value`, the error given as its
/// message. The contract claims that the outcome depends on the text alone:
/// the call succeeds exactly where `parsed_json` has a document, and what it
/// returns holds that document.
#[verifier::external_body]
fn parse_text(text: &str) -> (parsed: Result<serde_json::Value, String>)
    ensures
        parsed is Ok <==> parsed_json(text@) is Some,
        parsed matches Ok(document) ==> parsed_json(text@) == Some(json_content(document)),
{
    serde_json::from_str::<serde_json::Value>(text).map_err(|error| error.to_string())
}

/// The variants `Null`, `Bool`, `Number` and `String` of a
/// `serde_json::Value` as nodes, and `None` for the two others. A number is
/// told apart by `Number::as_i64` and `Number::as_u64`: one that the first
/// gives is signed, another that the second gives is unsigned, and the rest
/// are doubles, for which `Number::as_f64` gives the value (it gives one for
/// every number); of a double the bit pattern is kept, and the decimal form
/// that `to_string` writes. The contract claims that the node holds what the
/// value holds, and that `None` comes for an array or an object only.
#[verifier::external_body]
fn scalar_of(value: &serde_json::Value) -> (scalar: Option<Node>)
    ensures
        match scalar {
            Some(node) => node@ == json_content(*value) && !(node@ is Array) && !(node@ is Object),
            None => json_content(*value) is Array || json_content(*value) is Object,
        },
{
    match value {
        serde_json::Value::Null => Some(Node::Null),
        serde_json::Value::Bool(b) => Some(Node::Bool(*b)),
        serde_json::Value::Number(n) => Some(match (n.as_i64(), n.as_u64()) {
            (Some(i), _) => Node::Int64(i),
            (_, Some(u)) => Node::UInt64(u),
            _ => n.as_f64().map_or(Node::Null, |x| Node::Float64(Float { bits: x.to_bits(), text: x.to_string() })),
        }),
        serde_json::Value::String(s) => Some(Node::Str(s.clone())),
        _ => None,
    }
}

/// `serde_json::Value::as_array`. The contract claims that it gives the
/// items exactly of an array, that the array holds what they hold, in their
/// order, and that each of them is nested less deeply than the array.
#[verifier::external_body]
fn items_of(value: &serde_json::Value) -> (found: Option<&Vec<serde_json::Value>>)
    ensures
        match found {
            Some(items) => {
                &&& json_content(*value) == Json::Array(item_contents(items@))
                &&& forall|i: int|
                    0 <= i < items@.len() ==> json_depth(#[trigger] items@[i]) < json_depth(*value)
            },
            None => !(json_content(*value) is Array),
        },
{
    value.as_array()
}

/// `serde_json::Value::as_object`, with the fields in the order in which
/// `serde_json::Map::iter` gives them: that of their insertion, the map being
/// an `IndexMap`, whose order does not depend on how its keys are hashed. The
/// contract claims that it gives the fields exactly of an object, that the
/// object holds their names and what they hold, in that order, and that
/// each of them is nested less deeply than the object.
#[verifier::external_body]
fn fields_of(value: &serde_json::Value) -> (found: Option<Vec<(&String, &serde_json::Value)>>)
    ensures
        match found {
            Some(fields) => {
                &&& json_content(*value) == Json::Object(field_contents(fields@))
                &&& forall|i: int|
                    0 <= i < fields@.len() ==> json_depth(*(#[trigger] fields@[i]).1) < json_depth(
                        *value,
                    )
            },
            None => !(json_content(*value) is Object),
        },
{
    value.as_object().map(|fields| fields.iter().collect())
}

/// The node that holds what `value` holds.
pub fn import(value: &serde_json::Value) -> (node: Node)
    ensures
        node@ == json_content(*value),
    decreases json_depth(*value),
{
    if let Some(node) = scalar_of(value) {
        return node;
    }
    if let Some(items) = items_of(value) {
        let mut nodes: Vec<Node> = Vec::new();
        let mut i: usize = 0;
        while i < items.len()
            invariant
                i <= items@.len(),
                nodes@.len() == i,
                forall|k: int| 0 <= k < i ==> (#[trigger] nodes@[k])@ == json_content(items@[k]),
                forall|k: int|
                    0 <= k < items@.len() ==> json_depth(#[trigger] items@[k]) < json_depth(*value),
            decreases items@.len() - i,
        {
            nodes.push(import(&items[i]));
            i += 1;
        }
        proof {
            lemma_array_content(nodes);
            assert(contents(nodes@) =~= item_contents(items@));
        }
        return Node::Array(nodes);
    }
    match fields_of(value) {
        Some(fields) => {
            let mut entries: Vec<(String, Node)> = Vec::new();
            let mut i: usize = 0;
            while i < fields.len()
                invariant
                    i <= fields@.len(),
                    entries@.len() == i,
                    forall|k: int|
                        0 <= k < i ==> (#[trigger] entries@[k]).0@ == fields@[k].0@ && entries@[k].1@
                            == json_content(*fields@[k].1),
                    forall|k: int|
                        0 <= k < fields@.len() ==> json_depth(*(#[trigger] fields@[k]).1)
                            < json_depth(*value),
                decreases fields@.len() - i,
            {
                let name = fields[i].0.clone();
                let content = import(fields[i].1);
                entries.push((name, content));
                i += 1;
            }
            let record = Record { entries };
            proof {
                assert(record@ =~= field_contents(fields@));
            }
            Node::Object(record)
        },
        None => Node::Null,
    }
}

/// The document that `text` writes down. Text that is no document gives
/// the error `Parse`, with the parser's message.
pub fn parse_document(text: &str) -> (parsed: Result<Node, TableError>)
    ensures
        parsed is Ok <==> parsed_json(text@) is Some,
        parsed matches Ok(document) ==> parsed_json(text@) == Some(document@),
        parsed matches Err(error) ==> error is Parse,
{
    match parse_text(text) {
        Ok(document) => Ok(import(&document)),
        Err(message) => Err(TableError::Parse(message)),
    }
}

} // verus!
