//! The JSON reading that the parameter decoders rest on.
//!
//! Parsing is done by `serde_json`. A parsed document is opaque to the
//! verifier; the decoders see it only through the functions declared here.

use vstd::prelude::*;

verus! {

/// `serde_json::Value`: a parsed JSON value, carried through unread.
#[verifier::external_type_specification]
#[verifier::external_body]
pub struct ExJsonValue(serde_json::Value);

/// `serde_json::Error`: why a text could not be parsed, carried through
/// unread.
#[verifier::external_type_specification]
#[verifier::external_body]
pub struct ExJsonError(serde_json::Error);

/// The value that `serde_json` parses a text to, or `None` where it refuses
/// the text.
pub uninterp spec fn parsed_document(text: Seq<char>) -> Option<serde_json::Value>;

/// Whether a JSON value is an object.
pub uninterp spec fn is_object(value: serde_json::Value) -> bool;

/// The member that a JSON value holds under a key; `None` where the value is
/// no object or has no such member.
pub uninterp spec fn object_member(value: serde_json::Value, key: Seq<char>) -> Option<
    serde_json::Value,
>;

/// The boolean that a JSON value is, or `None` where it is no boolean.
pub uninterp spec fn boolean_of(value: serde_json::Value) -> Option<bool>;

/// The unsigned integer that a JSON value is, or `None` where it is no
/// integer or none that `u64` holds.
pub uninterp spec fn unsigned_of(value: serde_json::Value) -> Option<u64>;

/// `serde_json::from_str` at type `serde_json::Value`. Trusted: whether the
/// text is accepted, and the value it gives, depend on the text alone;
/// `parsed_document` is the name of that dependence. Nothing is claimed of
/// which texts are accepted.
#[verifier::external_body]
pub(crate) fn parse_document(text: &str) -> (r: Result<serde_json::Value, serde_json::Error>)
    ensures
        match r {
            Ok(doc) => parsed_document(text@) == Some(doc),
            Err(_) => parsed_document(text@) is None,
        },
{
    serde_json::from_str::<serde_json::Value>(text)
}

/// `serde_json::Value::is_object`. Trusted: the answer depends on the value
/// alone; `is_object` is its name.
pub assume_specification[ serde_json::Value::is_object ](value: &serde_json::Value) -> (r: bool)
    ensures
        r == is_object(*value),
;

/// `serde_json::Value::get` with a string key. Trusted: whether a member is
/// found, and which, depend on the value and the key alone; `object_member`
/// is the name of that dependence.
#[verifier::external_body]
pub(crate) fn member<'a>(value: &'a serde_json::Value, key: &str) -> (r: Option<
    &'a serde_json::Value,
>)
    ensures
        match r {
            Some(m) => object_member(*value, key@) == Some(*m),
            None => object_member(*value, key@) is None,
        },
{
    value.get(key)
}

/// `serde_json::Value::as_bool`. Trusted: the answer depends on the value
/// alone; `boolean_of` is its name.
pub assume_specification[ serde_json::Value::as_bool ](value: &serde_json::Value) -> (r: Option<
    bool,
>)
    ensures
        r == boolean_of(*value),
;

/// `serde_json::Value::as_u64`. Trusted: the answer depends on the value
/// alone; `unsigned_of` is its name.
pub assume_specification[ serde_json::Value::as_u64 ](value: &serde_json::Value) -> (r: Option<
    u64,
>)
    ensures
        r == unsigned_of(*value),
;

/// What an object holds under a key, read at type `T`.
#[derive(Debug, PartialEq, Eq)]
pub enum Member<T> {
    /// The object has no such member.
    Absent,
    /// The member is a `T`.
    Holds(T),
    /// The member is there and is no `T`.
    Mistyped,
}

impl<T> Member<T> {
    /// The value held, or `default` where the member is absent; `None` where
    /// the member has the wrong type.
    pub open spec fn spec_or(self, default: T) -> Option<T> {
        match self {
            Member::Absent => Some(default),
            Member::Holds(v) => Some(v),
            Member::Mistyped => None,
        }
    }

    /// The value held, or `default` where the member is absent; `None` where
    /// the member has the wrong type.
    pub fn or(self, default: T) -> (r: Option<T>)
        ensures
            r == self.spec_or(default),
    {
        match self {
            Member::Absent => Some(default),
            Member::Holds(v) => Some(v),
            Member::Mistyped => None,
        }
    }
}

/// The object that a text parses to: `None` where the text is not JSON, or is
/// JSON and no object.
pub open spec fn object_of(text: Seq<char>) -> Option<serde_json::Value> {
    match parsed_document(text) {
        Some(doc) => if is_object(doc) {
            Some(doc)
        } else {
            None
        },
        None => None,
    }
}

/// The member of `doc` under `key`, read as a boolean.
pub open spec fn boolean_member(doc: serde_json::Value, key: Seq<char>) -> Member<bool> {
    match object_member(doc, key) {
        None => Member::Absent,
        Some(m) => match boolean_of(m) {
            Some(b) => Member::Holds(b),
            None => Member::Mistyped,
        },
    }
}

/// The member of `doc` under `key`, read as an unsigned integer.
pub open spec fn unsigned_member(doc: serde_json::Value, key: Seq<char>) -> Member<u64> {
    match object_member(doc, key) {
        None => Member::Absent,
        Some(m) => match unsigned_of(m) {
            Some(n) => Member::Holds(n),
            None => Member::Mistyped,
        },
    }
}

/// Parses a text that must hold one JSON object.
pub fn parse_object(text: &str) -> (r: Option<serde_json::Value>)
    ensures
        r == object_of(text@),
{
    match parse_document(text) {
        Ok(doc) => if doc.is_object() {
            Some(doc)
        } else {
            None
        },
        Err(_) => None,
    }
}

/// Reads the member of `doc` under `key` as a boolean.
pub fn read_boolean(doc: &serde_json::Value, key: &str) -> (r: Member<bool>)
    ensures
        r == boolean_member(*doc, key@),
{
    match member(doc, key) {
        None => Member::Absent,
        Some(m) => match m.as_bool() {
            Some(b) => Member::Holds(b),
            None => Member::Mistyped,
        },
    }
}

/// Reads the member of `doc` under `key` as an unsigned integer.
pub fn read_unsigned(doc: &serde_json::Value, key: &str) -> (r: Member<u64>)
    ensures
        r == unsigned_member(*doc, key@),
{
    match member(doc, key) {
        None => Member::Absent,
        Some(m) => match m.as_u64() {
            Some(n) => Member::Holds(n),
            None => Member::Mistyped,
        },
    }
}

} // verus!
