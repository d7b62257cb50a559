//! Reading JSON values: what a `json::JsonValue` holds, as a mathematical
//! document, and the few accessors of the `json` crate that the account
//! reader goes through.

use vstd::prelude::*;
use json::JsonValue;

verus! {

/// `json::JsonValue`, the value of a parsed JSON text. Nothing inside it is
/// visible here; it is read through the accessors below.
#[verifier::external_type_specification]
#[verifier::external_body]
pub struct ExJsonValue(json::JsonValue);

/// A JSON document as a mathematical value.
pub enum Document {
    /// `null`.
    Null,
    /// A string, with its characters.
    Text(Seq<char>),
    /// A number. Nothing here reads its value.
    Number,
    /// `true` or `false`.
    Boolean(bool),
    /// An object: its members under their keys.
    Object(Map<Seq<char>, Document>),
    /// An array: its items in their order.
    Array(Seq<Document>),
}

impl Document {
    /// The member stored under `key`; `Null` where there is none or where
    /// the document is no object.
    pub open spec fn member(self, key: Seq<char>) -> Document {
        match self {
            Document::Object(fields) => if fields.contains_key(key) {
                fields[key]
            } else {
                Document::Null
            },
            _ => Document::Null,
        }
    }

    /// The text of a string document.
    pub open spec fn text(self) -> Option<Seq<char>> {
        match self {
            Document::Text(s) => Some(s),
            _ => None,
        }
    }

    /// The value of a boolean document.
    pub open spec fn flag(self) -> Option<bool> {
        match self {
            Document::Boolean(b) => Some(b),
            _ => None,
        }
    }

    /// The items of an array document, in order; empty for anything else.
    pub open spec fn items(self) -> Seq<Document> {
        match self {
            Document::Array(items) => items,
            _ => Seq::empty(),
        }
    }
}

/// The document that a `json::JsonValue` holds. What is taken to be true of
/// it is what the four accessors below say, each of one method of the
/// `json` crate.
pub uninterp spec fn document_of(value: JsonValue) -> Document;

/// `json::JsonValue`'s `Index<&str>`: the member under `key` of an object,
/// the crate's static `Null` for a missing key or a value that is no object.
#[verifier::external_body]
pub(crate) fn member<'a>(value: &'a JsonValue, key: &str) -> (found: &'a JsonValue)
    ensures
        document_of(*found) == document_of(*value).member(key@),
{
    &value[key]
}

/// `json::JsonValue::as_str`: the text of a string value (short or heap
/// allocated), `None` for every other kind of value.
#[verifier::external_body]
pub(crate) fn as_text<'a>(value: &'a JsonValue) -> (text: Option<&'a str>)
    ensures
        match text {
            Some(s) => document_of(*value).text() == Some(s@),
            None => document_of(*value).text() is None,
        },
{
    value.as_str()
}

/// `json::JsonValue::as_bool`: the value of a boolean, `None` for every
/// other kind of value.
#[verifier::external_body]
pub(crate) fn as_flag(value: &JsonValue) -> (flag: Option<bool>)
    ensures
        flag == document_of(*value).flag(),
{
    value.as_bool()
}

/// `json::JsonValue::members`: the items of an array in their order, and
/// nothing for a value that is no array.
#[verifier::external_body]
pub(crate) fn members<'a>(value: &'a JsonValue) -> (items: Vec<&'a JsonValue>)
    ensures
        items@.len() == document_of(*value).items().len(),
        forall|i: int|
            0 <= i < items@.len() ==> document_of(*#[trigger] items@[i]) == document_of(
                *value,
            ).items()[i],
{
    value.members().collect()
}

} // verus!
