//! JSON by way of `serde_json`.
//!
//! A report is handed to `serde_json` as a list of objects. An object is
//! known here by its entries alone: the keys it holds and the number or text
//! under each. `serde_json` always makes a text of such a list. What the text
//! is, is not spelled out; it has a name, [`json_pretty_text`], and is a
//! matter of the entries alone.
use vstd::prelude::*;

verus! {

/// `serde_json::Map`, the object of a JSON document: kept as it is, and known
/// here only by [`json_entries`].
#[verifier::external_type_specification]
#[verifier::external_body]
#[verifier::reject_recursive_types(K)]
#[verifier::reject_recursive_types(V)]
pub struct ExJsonMap<K, V>(serde_json::Map<K, V>);

/// `serde_json::Value`, what a JSON object holds under a key: never looked
/// into here.
#[verifier::external_type_specification]
#[verifier::external_body]
pub struct ExJsonValue(serde_json::Value);

/// What a report puts under a key of a JSON object.
#[derive(Debug)]
pub enum JsonItem {
    Number(usize),
    Text(String),
}

/// What a [`JsonItem`] says.
pub enum JsonItemView {
    Number(nat),
    Text(Seq<char>),
}

impl View for JsonItem {
    type V = JsonItemView;

    open spec fn view(&self) -> JsonItemView {
        match self {
            JsonItem::Number(n) => JsonItemView::Number(*n as nat),
            JsonItem::Text(text) => JsonItemView::Text(text@),
        }
    }
}

/// The keys of a JSON object and what it holds under each.
pub uninterp spec fn json_entries(object: serde_json::Map<String, serde_json::Value>) -> Map<
    Seq<char>,
    JsonItemView,
>;

/// The pretty-printed JSON text of a list of objects, each given by its
/// entries.
pub uninterp spec fn json_pretty_text(objects: Seq<Map<Seq<char>, JsonItemView>>) -> Seq<char>;

/// No entries at all.
pub open spec fn no_entries() -> Map<Seq<char>, JsonItemView> {
    Map::empty()
}

/// The entries of each of `objects`.
pub open spec fn entries_of(objects: Seq<serde_json::Map<String, serde_json::Value>>) -> Seq<
    Map<Seq<char>, JsonItemView>,
> {
    objects.map_values(|object: serde_json::Map<String, serde_json::Value>| json_entries(object))
}

/// `serde_json::Map::new`: a JSON object without entries.
#[verifier::external_body]
pub(crate) fn json_object() -> (object: serde_json::Map<String, serde_json::Value>)
    ensures
        json_entries(object) == no_entries(),
{
    serde_json::Map::new()
}

/// `serde_json::Map::insert`: puts `item` under `key`, as a JSON number or a
/// JSON string, in place of what the object held under `key` before. The
/// other entries stay.
#[verifier::external_body]
pub(crate) fn json_insert(
    object: &mut serde_json::Map<String, serde_json::Value>,
    key: &str,
    item: JsonItem,
)
    ensures
        json_entries(*final(object)) == json_entries(*old(object)).insert(key@, item@),
{
    let value = match item {
        JsonItem::Number(n) => serde_json::Value::from(n),
        JsonItem::Text(text) => serde_json::Value::String(text),
    };
    object.insert(key.to_string(), value);
}

/// `serde_json::to_string_pretty` on a list of objects.
///
/// It always succeeds on such a list: the text is written into memory, which
/// does not fail, every key is a string, and neither an object nor a value of
/// `serde_json` chooses to fail when it is written. The text is a function of
/// the entries of the objects, in the order of the list: an object is written
/// with its keys in ascending order, whatever the order in which they were put
/// in.
#[verifier::external_body]
pub(crate) fn json_pretty(
    objects: &Vec<serde_json::Map<String, serde_json::Value>>,
) -> (rendered: Result<String, serde_json::Error>)
    ensures
        rendered is Ok,
        rendered matches Ok(text) ==> text@ == json_pretty_text(entries_of(objects@)),
{
    serde_json::to_string_pretty(objects)
}

} // verus!
