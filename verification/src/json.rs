//! JSON documents, read and written by `serde_json`.
//!
//! A document is a `serde_json::Value`. What one holds is described by
//! [`JsonDoc`]; the functions here that touch a `Value` are thin wrappers
//! whose contracts are taken on trust from `serde_json`'s source.

use vstd::prelude::*;

verus! {

/// What a JSON document holds. A number stands as the text that
/// `serde_json` writes it with.
pub enum JsonDoc {
    Null,
    Bool(bool),
    Number(Seq<char>),
    Text(Seq<char>),
    List(Seq<JsonDoc>),
    Object(Map<Seq<char>, JsonDoc>),
}

impl JsonDoc {
    /// The member `key` of an object; none of anything else.
    pub open spec fn member(self, key: Seq<char>) -> Option<JsonDoc> {
        match self {
            JsonDoc::Object(members) => if members.contains_key(key) {
                Some(members[key])
            } else {
                None
            },
            _ => None,
        }
    }
}

/// The members of an object that has none.
pub open spec fn no_members() -> Map<Seq<char>, JsonDoc> {
    Map::empty()
}

/// `serde_json::Value`, a JSON document. Nothing inside it is visible to the
/// proofs: what it holds is named by `json_doc`.
#[verifier::external_type_specification]
#[verifier::external_body]
pub struct ExValue(serde_json::Value);

/// `serde_json::Error`, why a text was not read or a document not written.
/// It is carried through and never looked into.
#[verifier::external_type_specification]
#[verifier::external_body]
pub struct ExError(serde_json::Error);

/// `serde_json::Map`, the members of an object. Nothing inside it is visible
/// to the proofs: what it holds is named by `json_members`.
#[verifier::external_type_specification]
#[verifier::external_body]
#[verifier::reject_recursive_types(K)]
#[verifier::reject_recursive_types(V)]
pub struct ExMap<K, V>(serde_json::Map<K, V>);

/// What the document `value` holds.
pub uninterp spec fn json_doc(value: serde_json::Value) -> JsonDoc;

/// The document that `serde_json::from_str` reads from `text`, where it reads one.
pub uninterp spec fn json_parsed(text: Seq<char>) -> Option<JsonDoc>;

/// The text that `serde_json::to_string` writes for a document.
pub uninterp spec fn json_rendered(doc: JsonDoc) -> Seq<char>;

/// The members that the object under construction `members` holds, by name.
pub uninterp spec fn json_members(members: serde_json::Map<String, serde_json::Value>) -> Map<
    Seq<char>,
    JsonDoc,
>;

/// The number that `serde_json` reads from `text`, where it reads one.
pub uninterp spec fn json_number(text: Seq<char>) -> Option<JsonDoc>;

/// Whether `r` is what the JSON writer gives for `doc`: the text that it
/// writes. The writer never gives its error for a document.
pub open spec fn is_written(r: Result<String, serde_json::Error>, doc: JsonDoc) -> bool {
    r matches Ok(text) && text@ == json_rendered(doc)
}

/// `serde_json::from_str` at `serde_json::Value`: the document that the text
/// spells, or the parser's error where it spells none.
#[verifier::external_body]
pub(crate) fn parse_value(text: &str) -> (r: Result<serde_json::Value, serde_json::Error>)
    ensures
        match r {
            Ok(value) => json_parsed(text@) == Some(json_doc(value)),
            Err(_) => json_parsed(text@) is None,
        },
{
    serde_json::from_str::<serde_json::Value>(text)
}

/// `serde_json::to_string` on a `Value`: the text of the document, which
/// depends on the document alone, and never an error. Its documentation
/// names two ways to fail, a `Serialize` impl that fails and a map key that
/// is no string; a `Value` has neither, for its impl only hands the
/// serializer's results on and its keys are `String`s. Every other error of
/// the serializer comes from its writer, which here is a `Vec<u8>` that
/// grows as it is written to.
#[verifier::external_body]
pub(crate) fn render_value(value: &serde_json::Value) -> (r: Result<String, serde_json::Error>)
    ensures
        r is Ok,
        r matches Ok(text) ==> text@ == json_rendered(json_doc(*value)),
{
    serde_json::to_string(value)
}

/// `Value::get` with a string key: the member of that name where the
/// document is an object that has one.
#[verifier::external_body]
pub(crate) fn member_of<'a>(value: &'a serde_json::Value, key: &str) -> (r: Option<
    &'a serde_json::Value,
>)
    ensures
        match r {
            Some(found) => json_doc(*value).member(key@) == Some(json_doc(*found)),
            None => json_doc(*value).member(key@) is None,
        },
{
    value.get(key)
}

/// `Value::as_str`: the text of a document that is a string.
#[verifier::external_body]
pub(crate) fn text_of<'a>(value: &'a serde_json::Value) -> (r: Option<&'a str>)
    ensures
        match r {
            Some(text) => json_doc(*value) == JsonDoc::Text(text@),
            None => !(json_doc(*value) is Text),
        },
{
    value.as_str()
}

/// `Value::as_number`, the number handed out as the text that its `Display`
/// writes: the spelling of a document that is a number.
#[verifier::external_body]
pub(crate) fn number_text_of(value: &serde_json::Value) -> (r: Option<String>)
    ensures
        match r {
            Some(text) => json_doc(*value) == JsonDoc::Number(text@),
            None => !(json_doc(*value) is Number),
        },
{
    value.as_number().map(|number| number.to_string())
}

/// `Value::Null`.
#[verifier::external_body]
pub(crate) fn null_value() -> (value: serde_json::Value)
    ensures
        json_doc(value) == JsonDoc::Null,
{
    serde_json::Value::Null
}

/// `Value::String` of a copy of `text`.
#[verifier::external_body]
pub(crate) fn text_value(text: &str) -> (value: serde_json::Value)
    ensures
        json_doc(value) == JsonDoc::Text(text@),
{
    serde_json::Value::String(text.to_owned())
}

/// `Number::from_str`, the number wrapped in `Value::Number`: a document
/// that is a number, where `serde_json` reads one from the text.
#[verifier::external_body]
pub(crate) fn number_value(text: &str) -> (r: Option<serde_json::Value>)
    ensures
        match r {
            Some(value) => json_number(text@) == Some(json_doc(value)) && json_doc(value) is Number,
            None => json_number(text@) is None,
        },
{
    match text.parse::<serde_json::Number>() {
        Ok(number) => Some(serde_json::Value::Number(number)),
        Err(_) => None,
    }
}

/// `Value::Array` of the documents `items`, in their order.
#[verifier::external_body]
pub(crate) fn list_value(items: Vec<serde_json::Value>) -> (value: serde_json::Value)
    ensures
        json_doc(value) == JsonDoc::List(items@.map_values(|item: serde_json::Value| json_doc(item))),
{
    serde_json::Value::Array(items)
}

/// `Map::new`: an object under construction, without members.
#[verifier::external_body]
pub(crate) fn new_members() -> (members: serde_json::Map<String, serde_json::Value>)
    ensures
        json_members(members) == no_members(),
{
    serde_json::Map::new()
}

/// `Map::insert`: the member `key` is `value` from now on, whether or not
/// there was one of that name.
#[verifier::external_body]
pub(crate) fn put_member(
    members: &mut serde_json::Map<String, serde_json::Value>,
    key: &str,
    value: serde_json::Value,
)
    ensures
        json_members(*final(members)) == json_members(*old(members)).insert(key@, json_doc(value)),
{
    members.insert(key.to_owned(), value);
}

/// `Value::Object`: the object with the members collected in `members`.
#[verifier::external_body]
pub(crate) fn object_value(members: serde_json::Map<String, serde_json::Value>) -> (value:
    serde_json::Value)
    ensures
        json_doc(value) == JsonDoc::Object(json_members(members)),
{
    serde_json::Value::Object(members)
}

} // verus!
