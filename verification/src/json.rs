//! JSON values, built and written out by `serde_json`.
use crate::text::texts;
use vstd::prelude::*;

verus! {

/// `serde_json::Value`, which the library passes around and never looks into.
#[verifier::external_type_specification]
#[verifier::external_body]
pub struct ExValue(serde_json::Value);

/// `serde_json::Error`, which the library passes around and never looks into.
#[verifier::external_type_specification]
#[verifier::external_body]
pub struct ExJsonError(serde_json::Error);

/// What a JSON value holds, as far as the library makes use of JSON: texts, lists,
/// and objects, which keep their fields in order.
pub enum JsonTree {
    Text(Seq<char>),
    List(Seq<JsonTree>),
    Object(Seq<(Seq<char>, JsonTree)>),
}

/// What a `serde_json::Value` holds.
pub uninterp spec fn json_tree(value: serde_json::Value) -> JsonTree;

/// The bytes that `serde_json::to_vec_pretty` writes for a value that holds this.
pub uninterp spec fn json_pretty(tree: JsonTree) -> Seq<u8>;

/// What `serde_json::from_slice` reads from these bytes, if it can read them.
pub uninterp spec fn json_read(bytes: Seq<u8>) -> Option<JsonTree>;

/// Whether `serde_json` keeps a name for itself: an object that begins with a field of
/// such a name stands for something other than an object when it is read.
pub open spec fn is_reserved(name: Seq<char>) -> bool {
    name == "$serde_json::private::RawValue"@ || name == "$serde_json::private::Number"@
}

/// Whether lists and objects stand at most `levels` deep inside each other, and no
/// object begins with a reserved name.
pub open spec fn is_plain(tree: JsonTree, levels: nat) -> bool
    decreases levels,
{
    match tree {
        JsonTree::Text(_) => true,
        JsonTree::List(items) => levels > 0 && forall|i: int|
            0 <= i < items.len() ==> is_plain(#[trigger] items[i], (levels - 1) as nat),
        JsonTree::Object(fields) => {
            &&& levels > 0
            &&& fields.len() > 0 ==> !is_reserved(fields[0].0)
            &&& forall|i: int|
                0 <= i < fields.len() ==> is_plain((#[trigger] fields[i]).1, (levels - 1) as nat)
        },
    }
}

/// What the values of a list hold.
pub open spec fn json_trees(values: Seq<serde_json::Value>) -> Seq<JsonTree> {
    values.map_values(|value: serde_json::Value| json_tree(value))
}

/// What the fields of an object are called and hold.
pub open spec fn json_fields(fields: Seq<(String, serde_json::Value)>) -> Seq<(Seq<char>, JsonTree)> {
    fields.map_values(|field: (String, serde_json::Value)| (field.0@, json_tree(field.1)))
}

/// Makes a `serde_json::Value::String`: a value that holds the text.
#[verifier::external_body]
pub(crate) fn json_text(text: &str) -> (value: serde_json::Value)
    ensures
        json_tree(value) == JsonTree::Text(text@),
{
    serde_json::Value::String(text.to_owned())
}

/// Makes a `serde_json::Value::Array`: a value that holds the items in order.
#[verifier::external_body]
pub(crate) fn json_list(items: Vec<serde_json::Value>) -> (value: serde_json::Value)
    ensures
        json_tree(value) == JsonTree::List(json_trees(items@)),
{
    serde_json::Value::Array(items)
}

/// Makes a `serde_json::Value::Object` out of `serde_json::Map::from_iter`: a value
/// that holds the fields in order. The map keeps one field of each name, so the
/// names must differ; it keeps their order by the crate feature `preserve_order`.
#[verifier::external_body]
pub(crate) fn json_object(fields: Vec<(String, serde_json::Value)>) -> (value: serde_json::Value)
    requires
        forall|i: int, j: int| 0 <= i < j < fields.len() ==> fields[i].0@ != fields[j].0@,
    ensures
        json_tree(value) == JsonTree::Object(json_fields(fields@)),
{
    serde_json::Value::Object(serde_json::Map::from_iter(fields))
}

/// Calls `serde_json::to_vec_pretty`. A value is always written, since nothing in
/// it and no write to memory can fail, and the bytes depend on what it holds alone.
/// `serde_json::from_slice` reads the value back. Both go as deep as the value does;
/// reading gives up beyond 127 levels, so no value may nest deeper, and reading takes
/// an object that begins with a reserved name for something else, so none may.
#[verifier::external_body]
pub(crate) fn write_json_pretty(value: &serde_json::Value) -> (written: Result<Vec<u8>, serde_json::Error>)
    requires
        is_plain(json_tree(*value), 127),
    ensures
        written is Ok,
        written->Ok_0@ == json_pretty(json_tree(*value)),
        json_read(written->Ok_0@) == Some(json_tree(*value)),
{
    serde_json::to_vec_pretty(value)
}

/// A value that holds the list of texts.
pub(crate) fn json_texts(list: &Vec<String>) -> (value: serde_json::Value)
    ensures
        json_tree(value) == JsonTree::List(texts(list@).map_values(|text: Seq<char>| JsonTree::Text(text))),
{
    let mut items: Vec<serde_json::Value> = Vec::new();
    let mut i: usize = 0;
    while i < list.len()
        invariant
            i <= list.len(),
            items.len() == i,
            forall|j: int| 0 <= j < i ==> json_tree(#[trigger] items[j]) == JsonTree::Text(list[j]@),
        decreases list.len() - i,
    {
        items.push(json_text(list[i].as_str()));
        i = i + 1;
    }
    assert(json_trees(items@) =~= texts(list@).map_values(|text: Seq<char>| JsonTree::Text(text)));
    json_list(items)
}

/// What is stated of lists and objects is stated of each of their values, in order.
pub proof fn law_json_is_seen_as_it_is(
    values: Seq<serde_json::Value>,
    fields: Seq<(String, serde_json::Value)>,
    i: int,
)
    ensures
        json_trees(values).len() == values.len(),
        0 <= i < values.len() ==> json_trees(values)[i] == json_tree(values[i]),
        json_fields(fields).len() == fields.len(),
        0 <= i < fields.len() ==> json_fields(fields)[i] == (fields[i].0@, json_tree(fields[i].1)),
{
}

} // verus!
