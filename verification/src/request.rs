//! The user-facing search request and the two matching modes.

use vstd::prelude::*;
use crate::places::{Coord, Geometry};

verus! {

/// How query text is matched: a strict prefix match first, then a fuzzy
/// n-gram match as the fallback stage.
#[derive(Clone, Copy, Debug, PartialEq, Eq, Structural)]
pub enum MatchType {
    Prefix,
    Fuzzy,
}

impl MatchType {
    /// The label the mode carries in metrics and logs.
    pub fn as_label(self) -> (r: &'static str)
        ensures
            self is Prefix ==> r@ == "prefix"@,
            self is Fuzzy ==> r@ == "fuzzy"@,
    {
        match self {
            MatchType::Prefix => "prefix",
            MatchType::Fuzzy => "fuzzy",
        }
    }
}

/// An autocomplete request, already parsed into plain values.
#[derive(Debug)]
pub struct SearchRequest {
    /// The free-text query.
    pub q: String,
    /// Reference position; enables proximity scoring and distance decoration.
    pub coord: Option<Coord>,
    /// Restricts results to a geographic shape (stops stay visible outside).
    pub shape: Option<Geometry>,
    pub offset: u64,
    pub limit: u64,
    /// Preferred languages, ordered; adds localized name and label fields.
    pub langs: Vec<String>,
    /// Transit coverages the caller may see.
    pub pt_datasets: Vec<String>,
    /// Poi dataset identifiers the caller may see.
    pub poi_datasets: Vec<String>,
    /// Bypasses dataset visibility entirely.
    pub all_data: bool,
    /// Requested entity types; empty means all.
    pub types: Vec<String>,
    pub zone_types: Vec<String>,
    pub poi_types: Vec<String>,
    /// Asks the backend to explain scores.
    pub debug: bool,
    pub timeout_ms: Option<u64>,
}

pub open spec fn views_of(v: Seq<String>) -> Seq<Seq<char>> {
    v.map_values(|s: String| s@)
}

} // verus!
