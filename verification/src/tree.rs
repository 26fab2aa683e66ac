//! The typed query tree the planner emits.
//!
//! The backend accepts a boolean/function-score structure; the planner builds
//! it as an algebraic type so that its shape is statically checkable. The
//! top level has exactly three slots: two `must` conjuncts (the type prior
//! and the string query), a `filter` conjunction, and a list of `should`
//! score boosters.

use vstd::prelude::*;
use crate::places::{Coord, Geometry, PlaceKind};
use crate::settings::{BuildWeight, GaussianDecay, TypeWeights};

verus! {

/// One term of the type-prior disjunction: a boosted match on the document
/// type.
#[derive(Clone, Copy, Debug, PartialEq, Eq, Structural)]
pub struct TypeBoostClause {
    pub kind: PlaceKind,
    pub boost: u64,
}

/// One term of the string-query disjunction.
#[derive(Clone, Debug)]
pub enum StringClause {
    /// A multi-field match on a base field plus its localized variants.
    MultiMatch { base_field: String, lang_fields: Vec<String>, query: String, boost: u64 },
    /// A single-field match.
    MatchField { field: String, query: String, boost: u64 },
}

/// Specification-level value of a [`StringClause`].
pub enum StringClauseV {
    MultiMatch { base_field: Seq<char>, lang_fields: Seq<Seq<char>>, query: Seq<char>, boost: u64 },
    MatchField { field: Seq<char>, query: Seq<char>, boost: u64 },
}

impl View for StringClause {
    type V = StringClauseV;

    open spec fn view(&self) -> StringClauseV {
        match self {
            StringClause::MultiMatch { base_field, lang_fields, query, boost } => {
                StringClauseV::MultiMatch {
                    base_field: base_field@,
                    lang_fields: lang_fields@.map_values(|f: String| f@),
                    query: query@,
                    boost: *boost,
                }
            },
            StringClause::MatchField { field, query, boost } => {
                StringClauseV::MatchField { field: field@, query: query@, boost: *boost }
            },
        }
    }
}

/// One hard filter; filters never contribute score.
#[derive(Clone, Debug)]
pub enum FilterClause {
    /// The document must have no house number.
    HouseNumberAbsent,
    /// The document either has no house number or its house number matches
    /// the query.
    HouseNumberMatchOrAbsent { query: String },
    /// Every query token must prefix-match the full label.
    PrefixMatch { query: String },
    /// A share of the query tokens must match the full-label n-grams.
    FuzzyMatch { query: String, min_should_match_pct: u8 },
    /// The document either has no coverage or one of the permitted ones.
    Coverage { datasets: Vec<String> },
    /// The document must lie inside the shape, except documents of the
    /// excluded kind, which stay visible everywhere.
    Shape { shape: Geometry, exclude: PlaceKind },
    /// The document's identifier must be one of the values.
    Ids { values: Vec<String> },
}

/// Specification-level value of a [`FilterClause`].
pub enum FilterClauseV {
    HouseNumberAbsent,
    HouseNumberMatchOrAbsent { query: Seq<char> },
    PrefixMatch { query: Seq<char> },
    FuzzyMatch { query: Seq<char>, min_should_match_pct: u8 },
    Coverage { datasets: Seq<Seq<char>> },
    Shape { shape: Seq<Seq<Coord>>, exclude: PlaceKind },
    Ids { values: Seq<Seq<char>> },
}

impl View for FilterClause {
    type V = FilterClauseV;

    open spec fn view(&self) -> FilterClauseV {
        match self {
            FilterClause::HouseNumberAbsent => FilterClauseV::HouseNumberAbsent,
            FilterClause::HouseNumberMatchOrAbsent { query } => {
                FilterClauseV::HouseNumberMatchOrAbsent { query: query@ }
            },
            FilterClause::PrefixMatch { query } => FilterClauseV::PrefixMatch { query: query@ },
            FilterClause::FuzzyMatch { query, min_should_match_pct } => {
                FilterClauseV::FuzzyMatch {
                    query: query@,
                    min_should_match_pct: *min_should_match_pct,
                }
            },
            FilterClause::Coverage { datasets } => {
                FilterClauseV::Coverage { datasets: datasets@.map_values(|d: String| d@) }
            },
            FilterClause::Shape { shape, exclude } => {
                FilterClauseV::Shape { shape: shape@, exclude: *exclude }
            },
            FilterClause::Ids { values } => {
                FilterClauseV::Ids { values: values@.map_values(|v: String| v@) }
            },
        }
    }
}

/// One `should` booster; boosters adjust score and never drop documents.
#[derive(Clone, Copy, Debug, PartialEq, Eq, Structural)]
pub enum Booster {
    /// A per-kind function score: a field-value factor on `weight` times the
    /// kind's weight, with boost mode replace.
    TypeWeights { weights: BuildWeight, types: TypeWeights },
    /// A Gaussian decay on the distance to the reference position, combined
    /// with a constant weight, with boost mode replace.
    ProximityDecay { coord: Coord, gaussian: GaussianDecay, weight: u64 },
    /// A prefix-mode-only bump of administrative regions by the logarithm of
    /// their scaled importance.
    AdminBump,
}

/// The planned query: the structure the backend executes.
#[derive(Clone, Debug)]
pub struct QueryTree {
    /// First `must` conjunct: the type-prior disjunction.
    pub type_prior: Vec<TypeBoostClause>,
    pub type_prior_boost: u64,
    /// Second `must` conjunct: the string-query disjunction.
    pub string_clauses: Vec<StringClause>,
    pub string_boost: u64,
    /// The `filter` conjunction.
    pub filters: Vec<FilterClause>,
    /// The `should` boosters.
    pub boosters: Vec<Booster>,
}

pub open spec fn string_clause_views(v: Seq<StringClause>) -> Seq<StringClauseV> {
    v.map_values(|c: StringClause| c@)
}

pub open spec fn filter_clause_views(v: Seq<FilterClause>) -> Seq<FilterClauseV> {
    v.map_values(|c: FilterClause| c@)
}

} // verus!
