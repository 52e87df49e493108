//! The trusted boundary to the JSON parser.
//!
//! Remote model answers arrive as JSON text.  Parsing that text is done by
//! serde_json; a parsed value is opaque here, but every wrapper's result is
//! a function of its arguments alone, so each result carries a name: what
//! parsing a text yields, what an object holds under a key, what a value
//! reads as.  The library's contracts speak of those names exactly, and
//! everything concluded from a document is proved in verified code.

use vstd::prelude::*;

verus! {

#[verifier::external_type_specification]
#[verifier::external_body]
pub struct ExValue(serde_json::Value);

/// What parsing a JSON text yields, when it parses.
pub uninterp spec fn jv_parse_of(s: Seq<char>) -> Option<serde_json::Value>;

/// The member an object value holds under a key, if any.
pub uninterp spec fn jv_get_of(v: serde_json::Value, key: Seq<char>) -> Option<serde_json::Value>;

/// The text of a string value, if it is one.
pub uninterp spec fn jv_str_of(v: serde_json::Value) -> Option<Seq<char>>;

/// The truth of a boolean value, if it is one.
pub uninterp spec fn jv_bool_of(v: serde_json::Value) -> Option<bool>;

/// The elements of an array value, if it is one.
pub uninterp spec fn jv_items_of(v: serde_json::Value) -> Option<Seq<serde_json::Value>>;

/// The entries of an object value, in order, if it is one.
pub uninterp spec fn jv_entries_of(v: serde_json::Value) -> Option<
    Seq<(Seq<char>, serde_json::Value)>,
>;

/// The JSON spelling of a value; for a number value, its numeric literal.
pub uninterp spec fn jv_text_of(v: serde_json::Value) -> Seq<char>;

/// Relies on serde_json::from_str: parses JSON text into a value, or fails;
/// the result depends on the text alone.
#[verifier::external_body]
pub fn json_parse(s: &str) -> (r: Option<serde_json::Value>)
    ensures
        r == jv_parse_of(s@),
{
    serde_json::from_str::<serde_json::Value>(s).ok()
}

/// Relies on serde_json::Value::get: the member of an object under a key.
#[verifier::external_body]
pub fn json_get<'a>(v: &'a serde_json::Value, key: &str) -> (r: Option<&'a serde_json::Value>)
    ensures
        match r {
            Some(m) => jv_get_of(*v, key@) == Some(*m),
            None => jv_get_of(*v, key@) is None,
        },
{
    v.get(key)
}

/// Relies on serde_json::Value::as_str: the text of a string value.
#[verifier::external_body]
pub fn json_as_str(v: &serde_json::Value) -> (r: Option<String>)
    ensures
        match r {
            Some(s) => jv_str_of(*v) == Some(s@),
            None => jv_str_of(*v) is None,
        },
{
    v.as_str().map(|s| s.to_owned())
}

/// Relies on serde_json::Value::as_bool: the truth of a boolean value.
#[verifier::external_body]
pub fn json_as_bool(v: &serde_json::Value) -> (r: Option<bool>)
    ensures
        r == jv_bool_of(*v),
{
    v.as_bool()
}

/// Relies on serde_json::Value::as_array: the elements of an array value.
#[verifier::external_body]
pub fn json_as_array<'a>(v: &'a serde_json::Value) -> (r: Option<&'a Vec<serde_json::Value>>)
    ensures
        match r {
            Some(a) => jv_items_of(*v) == Some(a@),
            None => jv_items_of(*v) is None,
        },
{
    v.as_array()
}

/// Relies on serde_json::Value::as_object: the entries of an object value,
/// each member carried through as an opaque value.
#[verifier::external_body]
pub fn json_object_entries(v: &serde_json::Value) -> (r: Option<Vec<(String, serde_json::Value)>>)
    ensures
        match r {
            Some(es) => jv_entries_of(*v) matches Some(g) && es@.len() == g.len() && (forall|
                i: int,
            |
                0 <= i < g.len() ==> (#[trigger] es@[i]).0@ == g[i].0 && es@[i].1 == g[i].1),
            None => jv_entries_of(*v) is None,
        },
{
    v.as_object().map(|m| m.iter().map(|(k, x)| (k.clone(), x.clone())).collect())
}

/// Relies on the Display impl of serde_json::Value: the JSON spelling of a
/// value; for a number value this is its numeric literal.
#[verifier::external_body]
pub fn json_value_text(v: &serde_json::Value) -> (r: String)
    ensures
        r@ == jv_text_of(*v),
{
    v.to_string()
}

} // verus!
