use vstd::prelude::*;

verus! {

/// The string found at JSON pointer `pointer` in the JSON document `text`;
/// `None` where `text` is not JSON, nothing is found there, or what is found
/// is not a string.
pub uninterp spec fn json_str_at(text: Seq<char>, pointer: Seq<char>) -> Option<Seq<char>>;

/// For the array found at JSON pointer `list` in the JSON document `text`,
/// the string found at JSON pointer `item` in each element, in array order;
/// `None` where `text` is not JSON, no array is found at `list`, or some
/// element holds no string at `item`.
pub uninterp spec fn json_strs_at(text: Seq<char>, list: Seq<char>, item: Seq<char>) -> Option<
    Seq<Seq<char>>,
>;

pub open spec fn opt_string_view(o: Option<String>) -> Option<Seq<char>> {
    match o {
        Some(s) => Some(s@),
        None => None,
    }
}

pub open spec fn opt_strings_view(o: Option<Vec<String>>) -> Option<Seq<Seq<char>>> {
    match o {
        Some(v) => Some(v@.map_values(|s: String| s@)),
        None => None,
    }
}

/// Relies on serde_json::from_str into a serde_json::Value, then
/// Value::pointer and Value::as_str: the string at a JSON pointer.
#[verifier::external_body]
pub(crate) fn json_string_at(text: &str, pointer: &str) -> (r: Option<String>)
    ensures
        opt_string_view(r) == json_str_at(text@, pointer@),
{
    let v: serde_json::Value = serde_json::from_str(text).ok()?;
    v.pointer(pointer)?.as_str().map(|s| s.to_string())
}

/// Relies on serde_json::from_str into a serde_json::Value, then
/// Value::pointer, Value::as_array and, per element, Value::pointer and
/// Value::as_str: the strings at `item` in each element of the array at `list`.
#[verifier::external_body]
pub(crate) fn json_strings_at(text: &str, list: &str, item: &str) -> (r: Option<Vec<String>>)
    ensures
        opt_strings_view(r) == json_strs_at(text@, list@, item@),
{
    let v: serde_json::Value = serde_json::from_str(text).ok()?;
    v.pointer(list)?
        .as_array()?
        .iter()
        .map(|e| e.pointer(item).and_then(|s| s.as_str()).map(|s| s.to_string()))
        .collect()
}

} // verus!
