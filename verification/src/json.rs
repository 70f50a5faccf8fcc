//! JSON values carried through the library, and the few ways the library
//! builds them.
use vstd::prelude::*;

verus! {

/// `serde_json::Value`, carried opaquely.
#[verifier::external_type_specification]
#[verifier::external_body]
pub struct ExJsonValue(serde_json::Value);

/// `serde_json::Map`, known through the contracts of its wrappers.
#[verifier::external_type_specification]
#[verifier::external_body]
#[verifier::reject_recursive_types(K)]
#[verifier::reject_recursive_types(V)]
pub struct ExJsonMap<K, V>(serde_json::Map<K, V>);

/// A JSON object map with text keys.
pub type JsonMap = serde_json::Map<String, serde_json::Value>;

/// The key/value pairs held by a JSON object map.
pub uninterp spec fn json_map_entries(m: JsonMap) -> Map<Seq<char>, serde_json::Value>;

/// The JSON string value holding the given text.
pub uninterp spec fn json_string(s: Seq<char>) -> serde_json::Value;

/// The JSON object value holding the given entries.
pub uninterp spec fn json_object(entries: Map<Seq<char>, serde_json::Value>) -> serde_json::Value;

/// The JSON boolean value.
pub uninterp spec fn json_bool(b: bool) -> serde_json::Value;

/// The JSON array value holding the given items.
pub uninterp spec fn json_array(items: Seq<serde_json::Value>) -> serde_json::Value;

/// What `serde_json::Value::from` makes of an optional value: JSON `null`
/// for `None`, the value itself for `Some`.
pub uninterp spec fn json_from_option(o: Option<serde_json::Value>) -> serde_json::Value;

/// `serde_json::Value::from(o)` for an optional value: `Value::Null` when
/// it is `None`, the value itself when it is `Some`.
#[verifier::external_body]
pub(crate) fn json_from_opt(o: Option<serde_json::Value>) -> (v: serde_json::Value)
    ensures
        v == json_from_option(o),
        o matches Some(x) ==> v == x,
{
    serde_json::Value::from(o)
}

/// Builds `serde_json::Value::String(s)`.
#[verifier::external_body]
pub(crate) fn json_from_string(s: String) -> (v: serde_json::Value)
    ensures
        v == json_string(s@),
        json_as_text(v) == Some(s@),
{
    serde_json::Value::String(s)
}

/// Builds `serde_json::Value::Bool(b)`.
#[verifier::external_body]
pub(crate) fn json_from_bool(b: bool) -> (v: serde_json::Value)
    ensures
        v == json_bool(b),
        json_as_bool(v) == Some(b),
{
    serde_json::Value::Bool(b)
}

/// Builds `serde_json::Value::Array(items)`.
#[verifier::external_body]
pub(crate) fn json_from_vec(items: Vec<serde_json::Value>) -> (v: serde_json::Value)
    ensures
        v == json_array(items@),
        json_as_array(v) == Some(items@),
{
    serde_json::Value::Array(items)
}

/// The JSON number value of an unsigned integer.
pub uninterp spec fn json_u32(n: u32) -> serde_json::Value;

/// `serde_json::Value::from(n)` for a `u32`: the number `n`.
#[verifier::external_body]
pub(crate) fn json_from_u32(n: u32) -> (v: serde_json::Value)
    ensures
        v == json_u32(n),
{
    serde_json::Value::from(n)
}

/// The compact JSON text of a value, as its `Display` prints it.
pub uninterp spec fn json_compact_text(v: serde_json::Value) -> Seq<char>;

/// `Value::to_string`: the compact JSON text of a value.
#[verifier::external_body]
pub(crate) fn json_to_text(v: &serde_json::Value) -> (s: String)
    ensures
        s@ == json_compact_text(*v),
{
    v.to_string()
}

/// `serde_json::Map::new`: an empty object map.
#[verifier::external_body]
pub(crate) fn json_map_new() -> (m: JsonMap)
    ensures
        json_map_entries(m) =~= Map::empty(),
{
    serde_json::Map::new()
}

/// `serde_json::Map::insert`: sets the value under a key.
#[verifier::external_body]
pub(crate) fn json_map_insert(m: &mut JsonMap, k: String, v: serde_json::Value)
    ensures
        json_map_entries(*final(m)) == json_map_entries(*old(m)).insert(k@, v),
{
    m.insert(k, v);
}

/// Wraps an object map as `serde_json::Value::Object`.
#[verifier::external_body]
pub(crate) fn json_from_map(m: JsonMap) -> (v: serde_json::Value)
    ensures
        v == json_object(json_map_entries(m)),
        forall|k: Seq<char>| #[trigger] json_field(v, k) == json_map_entries(m).get(k),
{
    serde_json::Value::Object(m)
}

/// `<serde_json::Value as Clone>::clone` (derived): a structural copy.
pub assume_specification[ <serde_json::Value as Clone>::clone ](v: &serde_json::Value) -> (r: serde_json::Value)
    ensures
        r == *v,
;

/// `<serde_json::Map<String, Value> as Clone>::clone`: a copy holding the
/// same entries.
pub assume_specification[ <serde_json::Map<String, serde_json::Value> as Clone>::clone ](m: &serde_json::Map<String, serde_json::Value>) -> (r: serde_json::Map<String, serde_json::Value>)
    ensures
        r == *m,
;

/// What `Value::get` with a text key gives: the value under the key when
/// the value is an object holding the key.
pub uninterp spec fn json_field(v: serde_json::Value, key: Seq<char>) -> Option<serde_json::Value>;

/// What `Value::as_u64` gives: the number, when it is a non-negative
/// integer that fits.
pub uninterp spec fn json_as_u64(v: serde_json::Value) -> Option<u64>;

/// What `Value::as_str` gives: the text of a string value.
pub uninterp spec fn json_as_text(v: serde_json::Value) -> Option<Seq<char>>;

/// What `Value::as_bool` gives: the boolean of a boolean value.
pub uninterp spec fn json_as_bool(v: serde_json::Value) -> Option<bool>;

/// The outcome of parsing text as JSON: the value, or the error message.
pub type JsonParseOutcome = Result<serde_json::Value, Seq<char>>;

/// What `serde_json::from_str::<Value>` gives for a text: the value, or
/// the printed error.
pub uninterp spec fn json_parse_outcome(s: Seq<char>) -> JsonParseOutcome;

/// The result of parsing text as JSON, with the error printed.
pub type JsonParsed = Result<serde_json::Value, String>;

/// `Value::get` with a text key.
#[verifier::external_body]
pub(crate) fn json_get<'a>(v: &'a serde_json::Value, key: &str) -> (r: Option<&'a serde_json::Value>)
    ensures
        match r {
            Some(x) => json_field(*v, key@) == Some(*x),
            None => json_field(*v, key@) is None,
        },
{
    v.get(key)
}

/// `Value::as_u64`.
#[verifier::external_body]
pub(crate) fn json_u64(v: &serde_json::Value) -> (r: Option<u64>)
    ensures
        r == json_as_u64(*v),
{
    v.as_u64()
}

/// `Value::as_str`.
#[verifier::external_body]
pub(crate) fn json_str<'a>(v: &'a serde_json::Value) -> (r: Option<&'a str>)
    ensures
        match r {
            Some(t) => json_as_text(*v) == Some(t@),
            None => json_as_text(*v) is None,
        },
{
    v.as_str()
}

/// `Value::as_bool`.
#[verifier::external_body]
pub(crate) fn json_bool_of(v: &serde_json::Value) -> (r: Option<bool>)
    ensures
        r == json_as_bool(*v),
{
    v.as_bool()
}

/// What `Value::as_array` gives: the items of an array value.
pub uninterp spec fn json_as_array(v: serde_json::Value) -> Option<Seq<serde_json::Value>>;

/// `Value::as_array`.
#[verifier::external_body]
pub(crate) fn json_items<'a>(v: &'a serde_json::Value) -> (r: Option<&'a Vec<serde_json::Value>>)
    ensures
        match r {
            Some(a) => json_as_array(*v) == Some(a@),
            None => json_as_array(*v) is None,
        },
{
    v.as_array()
}

/// `Value::get` with a position: the item at that position of an array
/// value; nothing when the value is no array or the position is past its
/// end.
#[verifier::external_body]
pub(crate) fn json_get_at<'a>(v: &'a serde_json::Value, i: usize) -> (r: Option<&'a serde_json::Value>)
    ensures
        match json_as_array(*v) {
            Some(a) => if i < a.len() {
                r matches Some(x) && *x == a[i as int]
            } else {
                r is None
            },
            None => r is None,
        },
{
    v.get(i)
}

/// `serde_json::from_str::<Value>`, with the error printed.
#[verifier::external_body]
pub(crate) fn json_parse(s: &str) -> (r: JsonParsed)
    ensures
        match r {
            Ok(v) => json_parse_outcome(s@) == JsonParseOutcome::Ok(v),
            Err(m) => json_parse_outcome(s@) == JsonParseOutcome::Err(m@),
        },
{
    serde_json::from_str::<serde_json::Value>(s).map_err(|e| e.to_string())
}

} // verus!
