//! Tuning parameters of the query planner, immutable during a request.
//!
//! Every scalar is a non-negative fixed-point number in millionths (see
//! [`crate::scalar`]); radii are kilometres in millionths.

use vstd::prelude::*;
use crate::scalar::SCALAR_MAX;

verus! {

/// Field-level boosts of the string query.
#[derive(Clone, Copy, Debug, PartialEq, Eq, Structural)]
pub struct StringBoosts {
    pub name: u64,
    pub label: u64,
    pub label_prefix: u64,
    pub zip_codes: u64,
    pub house_number: u64,
    pub label_ngram: u64,
    pub label_ngram_with_coord: u64,
}

#[derive(Clone, Copy, Debug, PartialEq, Eq, Structural)]
pub struct StringQuerySettings {
    pub global: u64,
    pub boosts: StringBoosts,
}

/// Per-kind boosts of the type prior.
#[derive(Clone, Copy, Debug, PartialEq, Eq, Structural)]
pub struct TypeQueryBoosts {
    pub address: u64,
    pub admin: u64,
    pub stop: u64,
    pub poi: u64,
    pub street: u64,
}

#[derive(Clone, Copy, Debug, PartialEq, Eq, Structural)]
pub struct TypeQuerySettings {
    pub global: u64,
    pub boosts: TypeQueryBoosts,
}

/// Parameters of the Gaussian proximity decay; `scale` and `offset` are
/// kilometres in millionths, `decay` is a ratio in millionths.
#[derive(Clone, Copy, Debug, PartialEq, Eq, Structural)]
pub struct GaussianDecay {
    pub scale: u64,
    pub offset: u64,
    pub decay: u64,
}

#[derive(Clone, Copy, Debug, PartialEq, Eq, Structural)]
pub struct Proximity {
    pub gaussian: GaussianDecay,
    pub weight: u64,
    pub weight_fuzzy: u64,
}

/// The parameters of a field-value-factor importance function.
#[derive(Clone, Copy, Debug, PartialEq, Eq, Structural)]
pub struct BuildWeight {
    pub admin: u64,
    pub factor: u64,
    pub missing: u64,
}

/// Per-kind weights of the importance function.
#[derive(Clone, Copy, Debug, PartialEq, Eq, Structural)]
pub struct TypeWeights {
    pub address: u64,
    pub admin: u64,
    pub stop: u64,
    pub poi: u64,
    pub street: u64,
}

#[derive(Clone, Copy, Debug, PartialEq, Eq, Structural)]
pub struct ImportanceWeights {
    pub min_radius_prefix: BuildWeight,
    pub min_radius_fuzzy: BuildWeight,
    pub max_radius: BuildWeight,
    pub radius_range_min: u64,
    pub radius_range_max: u64,
    pub types: TypeWeights,
}

#[derive(Clone, Copy, Debug, PartialEq, Eq, Structural)]
pub struct ImportanceQuerySettings {
    pub proximity: Proximity,
    pub weights: ImportanceWeights,
}

#[derive(Clone, Copy, Debug, PartialEq, Eq, Structural)]
pub struct QuerySettings {
    pub string_query: StringQuerySettings,
    pub type_query: TypeQuerySettings,
    pub importance_query: ImportanceQuerySettings,
    /// Share of the query tokens, in percent, that a document must match on
    /// the n-gram field for the fuzzy matching filter to accept it.
    pub fuzzy_min_should_match_pct: u8,
}

impl BuildWeight {
    pub open spec fn valid(self) -> bool {
        self.admin <= SCALAR_MAX && self.factor <= SCALAR_MAX && self.missing <= SCALAR_MAX
    }
}

impl QuerySettings {
    /// All scalars within range, and a well-formed radius range.
    pub open spec fn valid(self) -> bool {
        let sb = self.string_query.boosts;
        let tb = self.type_query.boosts;
        let iq = self.importance_query;
        let w = iq.weights;
        &&& sb.name <= SCALAR_MAX
        &&& sb.label <= SCALAR_MAX
        &&& sb.label_prefix <= SCALAR_MAX
        &&& sb.zip_codes <= SCALAR_MAX
        &&& sb.house_number <= SCALAR_MAX
        &&& sb.label_ngram <= SCALAR_MAX
        &&& sb.label_ngram_with_coord <= SCALAR_MAX
        &&& self.string_query.global <= SCALAR_MAX
        &&& tb.address <= SCALAR_MAX
        &&& tb.admin <= SCALAR_MAX
        &&& tb.stop <= SCALAR_MAX
        &&& tb.poi <= SCALAR_MAX
        &&& tb.street <= SCALAR_MAX
        &&& self.type_query.global <= SCALAR_MAX
        &&& iq.proximity.gaussian.scale <= SCALAR_MAX
        &&& iq.proximity.gaussian.offset <= SCALAR_MAX
        &&& iq.proximity.gaussian.decay <= SCALAR_MAX
        &&& iq.proximity.weight <= SCALAR_MAX
        &&& iq.proximity.weight_fuzzy <= SCALAR_MAX
        &&& w.min_radius_prefix.valid()
        &&& w.min_radius_fuzzy.valid()
        &&& w.max_radius.valid()
        &&& w.radius_range_min <= w.radius_range_max <= SCALAR_MAX
        &&& w.types.address <= SCALAR_MAX
        &&& w.types.admin <= SCALAR_MAX
        &&& w.types.stop <= SCALAR_MAX
        &&& w.types.poi <= SCALAR_MAX
        &&& w.types.street <= SCALAR_MAX
        &&& self.fuzzy_min_should_match_pct <= 100
    }
}

impl QuerySettings {
    /// Checks validity at run time, for callers that load settings from
    /// outside and owe the planner valid ones.
    pub fn check(&self) -> (r: bool)
        ensures
            r == self.valid(),
    {
        let sb = &self.string_query.boosts;
        let tb = &self.type_query.boosts;
        let iq = &self.importance_query;
        let w = &iq.weights;
        sb.name <= SCALAR_MAX && sb.label <= SCALAR_MAX && sb.label_prefix <= SCALAR_MAX
            && sb.zip_codes <= SCALAR_MAX && sb.house_number <= SCALAR_MAX && sb.label_ngram
            <= SCALAR_MAX && sb.label_ngram_with_coord <= SCALAR_MAX && self.string_query.global
            <= SCALAR_MAX && tb.address <= SCALAR_MAX && tb.admin <= SCALAR_MAX && tb.stop
            <= SCALAR_MAX && tb.poi <= SCALAR_MAX && tb.street <= SCALAR_MAX
            && self.type_query.global <= SCALAR_MAX && iq.proximity.gaussian.scale <= SCALAR_MAX
            && iq.proximity.gaussian.offset <= SCALAR_MAX && iq.proximity.gaussian.decay
            <= SCALAR_MAX && iq.proximity.weight <= SCALAR_MAX && iq.proximity.weight_fuzzy
            <= SCALAR_MAX && w.min_radius_prefix.admin <= SCALAR_MAX && w.min_radius_prefix.factor
            <= SCALAR_MAX && w.min_radius_prefix.missing <= SCALAR_MAX && w.min_radius_fuzzy.admin
            <= SCALAR_MAX && w.min_radius_fuzzy.factor <= SCALAR_MAX && w.min_radius_fuzzy.missing
            <= SCALAR_MAX && w.max_radius.admin <= SCALAR_MAX && w.max_radius.factor <= SCALAR_MAX
            && w.max_radius.missing <= SCALAR_MAX && w.radius_range_min <= w.radius_range_max
            && w.radius_range_max <= SCALAR_MAX && w.types.address <= SCALAR_MAX && w.types.admin
            <= SCALAR_MAX && w.types.stop <= SCALAR_MAX && w.types.poi <= SCALAR_MAX
            && w.types.street <= SCALAR_MAX && self.fuzzy_min_should_match_pct <= 100
    }
}

} // verus!
