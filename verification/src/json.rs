//! JSON documents as `rustc_serialize` holds them, and the mathematical value
//! each one stands for.
//!
//! A document is opaque to the verifier. What the library reads from one and
//! writes into one goes through the functions of this module, whose contracts
//! are taken on trust from the source of `rustc_serialize::json`.

use crate::guard::within_reader_limits;
use rustc_serialize::json::{EncoderError, Json, ParserError};
use std::collections::BTreeMap;
use vstd::prelude::*;
use vstd::utf8::encode_utf8;

verus! {

/// A JSON value as mathematics sees it.
pub enum JsonValue {
    Null,
    Boolean(bool),
    I64(i64),
    U64(u64),
    /// A number with a fraction or an exponent, by its IEEE 754 bit pattern.
    F64(u64),
    String(Seq<char>),
    Array(Seq<JsonValue>),
    Object(Map<Seq<char>, JsonValue>),
}

/// `rustc_serialize::json::Json`, a JSON document.
#[verifier::external_type_specification]
#[verifier::external_body]
pub struct ExJson(rustc_serialize::json::Json);

/// `rustc_serialize::json::ParserError`, the error of the JSON reader.
#[verifier::external_type_specification]
#[verifier::external_body]
pub struct ExParserError(rustc_serialize::json::ParserError);

/// `rustc_serialize::json::EncoderError`, the error of the JSON writer.
#[verifier::external_type_specification]
#[verifier::external_body]
pub struct ExEncoderError(rustc_serialize::json::EncoderError);

/// The value that a document holds: for each variant of `Json` the variant of
/// the same name, with a string by its characters, a fraction by its bits, an
/// array by the values of its items and an object by the values under its
/// keys.
pub uninterp spec fn document(doc: Json) -> JsonValue;

/// What `Json::from_str` makes of a text: the value it reads, or `None` where
/// it reports a syntax error. The bits of a fraction that it reads are not a
/// matter of the text alone, so the value has 0 for them.
pub uninterp spec fn json_parsed(text: Seq<char>) -> Option<JsonValue>;

/// What `json::encode` writes for an object.
pub uninterp spec fn json_written(object: Map<Seq<char>, JsonValue>) -> Seq<char>;

/// The value with the bits of every fraction in it left out: 0 stands for
/// them.
pub open spec fn coarse(value: JsonValue) -> JsonValue
    decreases value,
{
    match value {
        JsonValue::F64(_) => JsonValue::F64(0),
        JsonValue::Array(items) => JsonValue::Array(
            Seq::new(
                items.len(),
                |i: int|
                    if 0 <= i < items.len() {
                        coarse(items[i])
                    } else {
                        JsonValue::Null
                    },
            ),
        ),
        JsonValue::Object(object) => JsonValue::Object(
            Map::new(
                |key: Seq<char>| object.dom().contains(key),
                |key: Seq<char>|
                    if object.dom().contains(key) {
                        coarse(object[key])
                    } else {
                        JsonValue::Null
                    },
            ),
        ),
        other => other,
    }
}

/// The value holds no fraction.
pub open spec fn fraction_free(value: JsonValue) -> bool
    decreases value,
{
    match value {
        JsonValue::F64(_) => false,
        JsonValue::Array(items) => forall|i: int|
            0 <= i < items.len() ==> fraction_free(#[trigger] items[i]),
        JsonValue::Object(object) => forall|key: Seq<char>|
            object.dom().contains(key) ==> fraction_free(#[trigger] object[key]),
        _ => true,
    }
}

/// The object with the bits of every fraction in it left out.
pub open spec fn coarse_object(object: Map<Seq<char>, JsonValue>) -> Map<Seq<char>, JsonValue> {
    match coarse(JsonValue::Object(object)) {
        JsonValue::Object(left) => left,
        _ => object,
    }
}

/// The two sequences of bytes agree in their first `k` bytes, and there the
/// first ends or has the smaller byte, while the second goes on.
pub open spec fn before_at(a: Seq<u8>, b: Seq<u8>, k: int) -> bool {
    &&& 0 <= k <= a.len()
    &&& k < b.len()
    &&& forall|i: int| 0 <= i < k ==> a[i] == b[i]
    &&& (k == a.len() || a[k] < b[k])
}

/// The first sequence of bytes stands before the second in the order of the
/// dictionary.
pub open spec fn bytes_before(a: Seq<u8>, b: Seq<u8>) -> bool {
    exists|k: int| before_at(a, b, k)
}

/// The keys stand in ascending order of their UTF-8 bytes, which is the
/// order of `String`.
pub open spec fn ascending_keys(entries: Seq<(String, Json)>) -> bool {
    forall|i: int, j: int|
        0 <= i < j < entries.len() ==> bytes_before(
            encode_utf8((#[trigger] entries[i]).0@),
            encode_utf8((#[trigger] entries[j]).0@),
        )
}

/// The object that a list of entries stands for. Where a key occurs more than
/// once, the last entry with it decides.
pub open spec fn entries_map(entries: Seq<(String, Json)>) -> Map<Seq<char>, JsonValue>
    decreases entries.len(),
{
    if entries.len() == 0 {
        Map::empty()
    } else {
        entries_map(entries.drop_last()).insert(entries.last().0@, document(entries.last().1))
    }
}

/// No key occurs twice.
pub open spec fn distinct_keys(entries: Seq<(String, Json)>) -> bool {
    forall|i: int, j: int|
        0 <= i < j < entries.len() ==> (#[trigger] entries[i]).0@ != (#[trigger] entries[j]).0@
}

/// Calls `Json::from_str`, on a text within the limits of the reader. It is
/// taken on trust that the call returns on such a text, and that the outcome
/// depends on the characters alone but for the bits of fractions: the
/// parser's error where `json_parsed` has no value for them, else a document
/// that holds the value `json_parsed` has, with whatever bits for its
/// fractions.
#[verifier::external_body]
pub(crate) fn parse(text: &str) -> (r: Result<Json, ParserError>)
    requires
        within_reader_limits(encode_utf8(text@)),
    ensures
        r is Ok <==> json_parsed(text@) is Some,
        r matches Ok(doc) ==> json_parsed(text@) == Some(coarse(document(doc))),
{
    Json::from_str(text)
}

/// Calls `Json::into_object` and lists the entries of the map it gives. It
/// is taken on trust that the result is `None` exactly where the document is
/// no object, and else holds each key of the object once, with the document
/// under that key, the keys in ascending order.
#[verifier::external_body]
pub(crate) fn into_entries(doc: Json) -> (r: Option<Vec<(String, Json)>>)
    ensures
        r is Some <==> document(doc) is Object,
        r matches Some(entries) ==> distinct_keys(entries@) && ascending_keys(entries@)
            && document(doc) == JsonValue::Object(entries_map(entries@)),
{
    doc.into_object().map(|object| object.into_iter().collect())
}

/// Calls `Json::as_string`. It is taken on trust that the result is the
/// text of a string document, and `None` for any other document.
#[verifier::external_body]
pub(crate) fn as_string<'a>(doc: &'a Json) -> (r: Option<&'a str>)
    ensures
        r is Some <==> document(*doc) is String,
        r matches Some(text) ==> document(*doc) == JsonValue::String(text@),
{
    doc.as_string()
}

/// Calls `Json::as_u64`. It is taken on trust that the result is the number
/// of a `U64` document, the number of an `I64` document that is not negative,
/// and `None` for any other document.
#[verifier::external_body]
pub(crate) fn as_u64(doc: &Json) -> (r: Option<u64>)
    ensures
        r == match document(*doc) {
            JsonValue::U64(n) => Some(n),
            JsonValue::I64(n) => if n >= 0 { Some(n as u64) } else { None },
            _ => None,
        },
{
    doc.as_u64()
}

/// Builds `Json::String`. It is taken on trust that the document holds the
/// string of these characters.
#[verifier::external_body]
pub(crate) fn string(text: String) -> (doc: Json)
    ensures
        document(doc) == JsonValue::String(text@),
{
    Json::String(text)
}

/// Builds `Json::U64`. It is taken on trust that the document holds this
/// number.
#[verifier::external_body]
pub(crate) fn unsigned(n: u64) -> (doc: Json)
    ensures
        document(doc) == JsonValue::U64(n),
{
    Json::U64(n)
}

/// Calls `Json::clone`. It is taken on trust that the copy holds the value
/// that the document holds.
#[verifier::external_body]
pub(crate) fn duplicate(doc: &Json) -> (r: Json)
    ensures
        document(r) == document(*doc),
{
    doc.clone()
}

/// Collects the entries into a `BTreeMap` and calls `json::encode` on it.
/// It is taken on trust that the encoder does not fail on a map with strings
/// for keys, and that its text depends on the object alone, as `json_written`
/// names it. The keys are distinct, so collecting drops no entry.
#[verifier::external_body]
pub(crate) fn write_object(entries: Vec<(String, Json)>) -> (r: Result<String, EncoderError>)
    requires
        distinct_keys(entries@),
    ensures
        r is Ok,
        r matches Ok(text) ==> text@ == json_written(entries_map(entries@)),
{
    let object: BTreeMap<String, Json> = entries.into_iter().collect();
    rustc_serialize::json::encode(&object)
}

} // verus!
