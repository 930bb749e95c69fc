//! JSON texts of string maps, written and read by serde_json.

use vstd::prelude::*;
use std::collections::BTreeMap;
use crate::index::{keys_distinct, map_of};

verus! {

/// The views of some pairs of texts.
pub open spec fn text_pairs(pairs: Seq<(String, String)>) -> Seq<(Seq<char>, Seq<char>)> {
    pairs.map_values(|p: (String, String)| (p.0@, p.1@))
}

/// The views of some texts, each paired with its own pairs of texts.
pub open spec fn nested_pairs(entries: Seq<(String, Vec<(String, String)>)>) -> Seq<
    (Seq<char>, Seq<(Seq<char>, Seq<char>)>),
> {
    entries.map_values(|e: (String, Vec<(String, String)>)| (e.0@, text_pairs(e.1@)))
}

/// The map that parsed pairs describe, if parsing succeeded.
pub open spec fn parsed_map(r: Option<Vec<(String, String)>>) -> Option<Map<Seq<char>, Seq<char>>> {
    match r {
        Some(v) => Some(map_of(text_pairs(v@))),
        None => None,
    }
}

/// The map of maps that nested pairs describe.
pub open spec fn nested_maps(entries: Seq<(Seq<char>, Seq<(Seq<char>, Seq<char>)>)>) -> Map<
    Seq<char>,
    Map<Seq<char>, Seq<char>>,
> {
    map_of(
        entries.map_values(
            |e: (Seq<char>, Seq<(Seq<char>, Seq<char>)>)| (e.0, map_of(e.1)),
        ),
    )
}

/// The map of maps that parsed nested pairs describe, if parsing succeeded.
pub open spec fn parsed_nested(r: Option<Vec<(String, Vec<(String, String)>)>>) -> Option<
    Map<Seq<char>, Map<Seq<char>, Seq<char>>>,
> {
    match r {
        Some(v) => Some(nested_maps(nested_pairs(v@))),
        None => None,
    }
}

/// The JSON object text that serde_json writes for a map of strings.
pub uninterp spec fn json_object_text(pairs: Seq<(Seq<char>, Seq<char>)>) -> Seq<char>;

/// The map of strings that serde_json reads from a JSON text, in key order.
pub uninterp spec fn json_object_parsed(text: Seq<char>) -> Option<Seq<(Seq<char>, Seq<char>)>>;

/// The JSON text that serde_json writes for a map of maps of strings.
pub uninterp spec fn json_nested_text(entries: Seq<(Seq<char>, Seq<(Seq<char>, Seq<char>)>)>) -> Seq<
    char,
>;

/// The map of maps of strings that serde_json reads from a JSON text.
pub uninterp spec fn json_nested_parsed(text: Seq<char>) -> Option<
    Seq<(Seq<char>, Seq<(Seq<char>, Seq<char>)>)>,
>;

/// Relies on `serde_json::to_string` of a `BTreeMap<&str, &str>`: a JSON
/// object with one string member per pair. It fails only on a `Serialize`
/// impl that fails or on a map key that is not a string, neither of which
/// a map of strings has.
#[verifier::external_body]
pub fn to_json_object(pairs: &Vec<(String, String)>) -> (r: Option<String>)
    ensures
        r is Some,
        r matches Some(t) ==> t@ == json_object_text(text_pairs(pairs@)),
{
    let m: BTreeMap<&str, &str> = pairs.iter().map(|p| (p.0.as_str(), p.1.as_str())).collect();
    serde_json::to_string(&m).ok()
}

/// Relies on `serde_json::from_str` into a `BTreeMap<String, String>`, whose
/// keys are distinct; it reads back the map that `to_json_object` wrote,
/// later pairs of equal keys overriding earlier ones.
#[verifier::external_body]
pub fn from_json_object(text: &str) -> (r: Option<Vec<(String, String)>>)
    ensures
        match r {
            Some(v) => json_object_parsed(text@) == Some(text_pairs(v@)),
            None => json_object_parsed(text@) is None,
        },
        r matches Some(v) ==> keys_distinct(text_pairs(v@)),
        forall|p: Seq<(Seq<char>, Seq<char>)>|
            #[trigger] json_object_text(p) == text@ ==> parsed_map(r) == Some(map_of(p)),
{
    let m: Option<BTreeMap<String, String>> = serde_json::from_str(text).ok();
    m.map(|m| m.into_iter().collect())
}

/// Relies on `serde_json::to_string` of a `BTreeMap<&str, BTreeMap<&str, &str>>`:
/// a JSON object whose members are objects of strings. Like the flat form,
/// it cannot fail on maps of strings.
#[verifier::external_body]
pub fn to_json_nested(entries: &Vec<(String, Vec<(String, String)>)>) -> (r: Option<String>)
    ensures
        r is Some,
        r matches Some(t) ==> t@ == json_nested_text(nested_pairs(entries@)),
{
    let m: BTreeMap<&str, BTreeMap<&str, &str>> = entries.iter().map(
        |e| (e.0.as_str(), e.1.iter().map(|p| (p.0.as_str(), p.1.as_str())).collect()),
    ).collect();
    serde_json::to_string(&m).ok()
}

/// Relies on `serde_json::from_str` into a `BTreeMap<String, BTreeMap<String,
/// String>>`, whose keys are distinct; it reads back the maps that
/// `to_json_nested` wrote.
#[verifier::external_body]
pub fn from_json_nested(text: &str) -> (r: Option<Vec<(String, Vec<(String, String)>)>>)
    ensures
        match r {
            Some(v) => json_nested_parsed(text@) == Some(nested_pairs(v@)),
            None => json_nested_parsed(text@) is None,
        },
        r matches Some(v) ==> keys_distinct(nested_pairs(v@)),
        forall|e: Seq<(Seq<char>, Seq<(Seq<char>, Seq<char>)>)>|
            #[trigger] json_nested_text(e) == text@ ==> parsed_nested(r) == Some(nested_maps(e)),
{
    let m: Option<BTreeMap<String, BTreeMap<String, String>>> = serde_json::from_str(text).ok();
    m.map(|m| m.into_iter().map(|(k, inner)| (k, inner.into_iter().collect())).collect())
}

} // verus!
