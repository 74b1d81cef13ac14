//! Reading the uptime source's answer: a JSON object whose keys are the
//! identifiers of the agents that are up.
use vstd::prelude::*;
use std::collections::HashMap;

verus! {

/// The error type of `serde_json`, carried through and never looked into.
#[verifier::external_type_specification]
#[verifier::external_body]
pub struct ExJsonError(serde_json::Error);

/// The keys of the JSON object that `body` spells, as `serde_json::from_str`
/// reads it into a map from strings to JSON values; none where it does not
/// read `body` as such a map.
pub uninterp spec fn json_object_keys(body: Seq<char>) -> Option<Set<Seq<char>>>;

/// The identifiers as sequences of characters.
pub open spec fn ids_of(ids: Seq<String>) -> Seq<Seq<char>> {
    ids.map_values(|s: String| s@)
}

/// Calls `serde_json::from_str` to read `body` as a map from strings to JSON
/// values, and hands out the map's keys. Trusted: that it succeeds exactly
/// where `json_object_keys` has a value, and that the keys come out without
/// repeats and are exactly that set; nothing is claimed of their order.
#[verifier::external_body]
pub(crate) fn parse_object_keys(body: &str) -> (res: Result<Vec<String>, serde_json::Error>)
    ensures
        res is Ok <==> json_object_keys(body@) is Some,
        res is Ok ==> ids_of(res->Ok_0@).no_duplicates() && ids_of(res->Ok_0@).to_set()
            == json_object_keys(body@)->0,
{
    let parsed: Result<HashMap<String, serde_json::Value>, serde_json::Error> =
        serde_json::from_str(body);
    parsed.map(|object| object.into_keys().collect())
}

} // verus!
