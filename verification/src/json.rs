//! Reading and writing the text of a language file, which is a JSON object
//! whose keys and values are strings. Both directions are the work of
//! `serde_json`; nothing here is proved of them.

use vstd::prelude::*;
use crate::entries::{map_of, sorted_by_key};
use crate::keymap::pairs_of;

verus! {

#[verifier::external_type_specification]
#[verifier::external_body]
pub struct ExJsonError(serde_json::Error);

/// The map that `serde_json::from_str` reads from a text as a map of strings
/// to strings, or `None` where it rejects the text.
pub uninterp spec fn json_object(text: Seq<char>) -> Option<Map<Seq<char>, Seq<char>>>;

/// The text that `serde_json::to_string_pretty` writes for a map of strings
/// to strings.
pub uninterp spec fn json_text(map: Map<Seq<char>, Seq<char>>) -> Seq<char>;

/// Calls `serde_json::from_str` for a `BTreeMap<String, String>` and hands
/// out its entries as the map walks them. The contract claims that success
/// and the map read depend on the text alone, and that the entries come in
/// the order of their keys, each key once, which is how a `BTreeMap` is
/// walked.
#[verifier::external_body]
pub(crate) fn read_object(text: &str) -> (r: Result<Vec<(String, String)>, serde_json::Error>)
    ensures
        r is Ok <==> json_object(text@) is Some,
        r matches Ok(entries) ==> sorted_by_key(pairs_of(entries@)) && json_object(text@)
            == Some(map_of(pairs_of(entries@))),
{
    match serde_json::from_str::<std::collections::BTreeMap<String, String>>(text) {
        Ok(map) => Ok(map.into_iter().collect()),
        Err(error) => Err(error),
    }
}

/// Calls `serde_json::to_string_pretty` on the entries as a `BTreeMap`. The
/// contract claims that the call succeeds, and that the text written depends
/// on the map alone. Serialising fails only where a value's `Serialize`
/// decides to fail or a map has keys that are no strings; a map of strings
/// to strings, written into memory, gives neither.
#[verifier::external_body]
pub(crate) fn write_object(entries: &Vec<(String, String)>) -> (r: Result<
    String,
    serde_json::Error,
>)
    requires
        sorted_by_key(pairs_of(entries@)),
    ensures
        r is Ok,
        r matches Ok(text) ==> text@ == json_text(map_of(pairs_of(entries@))),
{
    let map: std::collections::BTreeMap<&String, &String> = entries.iter().map(
        |entry| (&entry.0, &entry.1),
    ).collect();
    serde_json::to_string_pretty(&map)
}

/// The message of a `serde_json::Error`, as its `Display` writes it. Nothing
/// is claimed of the text.
#[verifier::external_body]
pub(crate) fn error_text(error: &serde_json::Error) -> (text: String) {
    error.to_string()
}

} // verus!
