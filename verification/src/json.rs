//! JSON request bodies. The text is read by `serde_json`; what is read is
//! modelled as a tree of plain values, and the record is taken out of it by
//! verified code.

use vstd::prelude::*;

verus! {

/// `serde_json::Value`, a JSON document in memory. Nothing of its inside is
/// known here but what `json_tree` names.
#[verifier::external_type_specification]
#[verifier::external_body]
pub struct ExJsonValue(serde_json::Value);

/// `serde_json::Error`, what `serde_json` says of a text that it rejects.
/// Nothing of its inside is known here.
#[verifier::external_type_specification]
#[verifier::external_body]
pub struct ExJsonError(serde_json::Error);

/// A JSON document as a mathematical value.
pub enum JsonTree {
    Null,
    Bool(bool),
    /// A number. The field holds it where it is an integer between 0 and
    /// `u64::MAX`, and is `None` for a negative or fractional number.
    Number(Option<u64>),
    Text(Seq<char>),
    Array(Seq<JsonTree>),
    Object(Map<Seq<char>, JsonTree>),
}

/// The document that a `serde_json::Value` holds.
pub uninterp spec fn json_tree(value: serde_json::Value) -> JsonTree;

/// The document that `serde_json` reads from `text`, or `None` where it
/// rejects the text.
pub uninterp spec fn json_parsed(text: Seq<char>) -> Option<JsonTree>;

/// Reads a whole JSON text with `serde_json::from_str`. The result depends on
/// the text alone: an error where the text is no JSON document (or is followed
/// by anything but whitespace), its value otherwise.
#[verifier::external_body]
pub(crate) fn parse_json(text: &str) -> (r: Result<serde_json::Value, serde_json::Error>)
    ensures
        match r {
            Ok(value) => json_parsed(text@) == Some(json_tree(value)),
            Err(_) => json_parsed(text@) is None,
        },
{
    serde_json::from_str::<serde_json::Value>(text)
}

/// Looks a member up by name with `serde_json::Value::get`: the member's
/// value where `doc` is an object that has the key, `None` otherwise.
#[verifier::external_body]
pub(crate) fn json_member<'a>(doc: &'a serde_json::Value, key: &str) -> (r: Option<
    &'a serde_json::Value,
>)
    ensures
        match json_tree(*doc) {
            JsonTree::Object(members) => if members.contains_key(key@) {
                r matches Some(v) && json_tree(*v) == members[key@]
            } else {
                r is None
            },
            _ => r is None,
        },
{
    doc.get(key)
}

/// `serde_json::Value::as_str`: the text of a JSON string, `None` for any
/// other value.
#[verifier::external_body]
pub(crate) fn json_text<'a>(value: &'a serde_json::Value) -> (r: Option<&'a str>)
    ensures
        match json_tree(*value) {
            JsonTree::Text(t) => r matches Some(s) && s@ == t,
            _ => r is None,
        },
{
    value.as_str()
}

/// `serde_json::Value::as_u64`: the value of a JSON number that is an integer
/// between 0 and `u64::MAX`, `None` for any other value.
#[verifier::external_body]
pub(crate) fn json_unsigned(value: &serde_json::Value) -> (r: Option<u64>)
    ensures
        r == match json_tree(*value) {
            JsonTree::Number(n) => n,
            _ => None,
        },
{
    value.as_u64()
}

/// The record that `POST /json` takes.
#[derive(Debug)]
pub struct SomeJSON {
    pub name: String,
    pub age: u8,
}

/// The record as plain values.
pub struct SomeJSONView {
    pub name: Seq<char>,
    pub age: u8,
}

impl View for SomeJSON {
    type V = SomeJSONView;

    open spec fn view(&self) -> SomeJSONView {
        SomeJSONView { name: self.name@, age: self.age }
    }
}

/// Why a body is no record.
#[derive(Clone, Copy, Debug, PartialEq, Eq, Structural)]
pub enum JsonError {
    /// The body is no JSON text.
    Malformed,
    /// The body is JSON, but not an object with a text `name` and an `age`
    /// between 0 and 255.
    Shape,
}

/// The record that a document holds: an object whose member `name` is a text
/// and whose member `age` is an integer between 0 and 255. Other members are
/// passed over.
pub open spec fn record_of(doc: JsonTree) -> Option<SomeJSONView> {
    match doc {
        JsonTree::Object(members) => if members.contains_key("name"@) && members.contains_key(
            "age"@,
        ) {
            match (members["name"@], members["age"@]) {
                (JsonTree::Text(name), JsonTree::Number(Some(age))) => if age <= u8::MAX {
                    Some(SomeJSONView { name, age: age as u8 })
                } else {
                    None
                },
                _ => None,
            }
        } else {
            None
        },
        _ => None,
    }
}

/// What decoding a body gives, from what `serde_json` reads of it.
pub open spec fn decoded_record(parsed: Option<JsonTree>) -> Result<SomeJSONView, JsonError> {
    match parsed {
        None => Err(JsonError::Malformed),
        Some(doc) => match record_of(doc) {
            Some(record) => Ok(record),
            None => Err(JsonError::Shape),
        },
    }
}

/// Takes the record out of a JSON document.
pub fn record_from_json(doc: &serde_json::Value) -> (r: Option<SomeJSON>)
    ensures
        r is Some <==> record_of(json_tree(*doc)) is Some,
        r matches Some(record) ==> record_of(json_tree(*doc)) == Some(record@),
{
    let name = match json_member(doc, "name") {
        Some(value) => json_text(value),
        None => None,
    };
    let age = match json_member(doc, "age") {
        Some(value) => json_unsigned(value),
        None => None,
    };
    match (name, age) {
        (Some(name), Some(age)) => if age <= 255 {
            Some(SomeJSON { name: name.to_owned(), age: age as u8 })
        } else {
            None
        },
        _ => None,
    }
}

/// Reads the record from a JSON body.
pub fn decode_some_json(body: &str) -> (r: Result<SomeJSON, JsonError>)
    ensures
        match r {
            Ok(record) => decoded_record(json_parsed(body@)) == Ok::<SomeJSONView, JsonError>(
                record@,
            ),
            Err(e) => decoded_record(json_parsed(body@)) == Err::<SomeJSONView, JsonError>(e),
        },
{
    match parse_json(body) {
        Err(_) => Err(JsonError::Malformed),
        Ok(doc) => match record_from_json(&doc) {
            Some(record) => Ok(record),
            None => Err(JsonError::Shape),
        },
    }
}

} // verus!
