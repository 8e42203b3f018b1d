//! Reading flat JSON objects (token tables, glossaries, configuration) with
//! `serde_json`.
use vstd::prelude::*;

verus! {

/// A JSON value as the readers here need it.
pub enum JsonScalar {
    /// A string.
    Str(String),
    /// A number that is an integer within `i64`.
    Int(i64),
    /// `null`.
    Null,
    /// Anything else: another number, a boolean, an array or an object.
    Other,
}

/// The plain-value form of a [`JsonScalar`].
pub enum JsonScalarView {
    Str(Seq<char>),
    Int(i64),
    Null,
    Other,
}

impl View for JsonScalar {
    type V = JsonScalarView;

    open spec fn view(&self) -> JsonScalarView {
        match self {
            JsonScalar::Str(s) => JsonScalarView::Str(s@),
            JsonScalar::Int(i) => JsonScalarView::Int(*i),
            JsonScalar::Null => JsonScalarView::Null,
            JsonScalar::Other => JsonScalarView::Other,
        }
    }
}

pub type JsonEntries = Seq<(Seq<char>, JsonScalarView)>;

/// The entries of the JSON object `json`, in increasing key order, the last of
/// duplicate keys kept; `None` when `json` is not a JSON object.
pub uninterp spec fn json_object_entries(json: Seq<char>) -> Option<JsonEntries>;

pub open spec fn entry_views(v: Seq<(String, JsonScalar)>) -> JsonEntries {
    v.map_values(|p: (String, JsonScalar)| (p.0@, p.1@))
}

/// No key occurs twice.
pub open spec fn distinct_keys<V>(es: Seq<(Seq<char>, V)>) -> bool {
    forall|i: int, j: int| 0 <= i < j < es.len() ==> es[i].0 != es[j].0
}

/// Calls `serde_json::from_str` to read `json` as a `BTreeMap` from keys to JSON values
/// and tells the kinds of the values apart.  The keys of a map are distinct.
#[verifier::external_body]
pub(crate) fn parse_json_object(json: &str) -> (r: Option<Vec<(String, JsonScalar)>>)
    ensures
        match r {
            Some(v) => json_object_entries(json@) == Some(entry_views(v@)) && distinct_keys(
                entry_views(v@),
            ),
            None => json_object_entries(json@) is None,
        },
{
    let m = serde_json::from_str::<std::collections::BTreeMap<String, serde_json::Value>>(json).ok()?;
    Some(m.into_iter().map(|(k, v)| (k, match v {
        serde_json::Value::String(s) => JsonScalar::Str(s),
        serde_json::Value::Number(n) => n.as_i64().map_or(JsonScalar::Other, JsonScalar::Int),
        serde_json::Value::Null => JsonScalar::Null,
        _ => JsonScalar::Other,
    })).collect())
}

} // verus!
