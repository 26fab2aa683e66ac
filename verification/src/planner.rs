//! The query planner: turns a request and the tuning settings into the
//! query tree of [`crate::tree`]. The planner is total — it never fails on
//! any request.

use vstd::prelude::*;
use crate::places::{Geometry, PlaceKind};
use crate::request::{MatchType, SearchRequest};
use crate::scalar::{blend_ppm, zoom_ratio_ppm};
use crate::settings::{BuildWeight, QuerySettings, StringQuerySettings, TypeQueryBoosts};
use crate::text::{clone_strings, is_ws, lemma_no_ws_single_token, multi_token, token_count};
use crate::tree::{
    Booster, FilterClause, FilterClauseV, QueryTree, StringClause, StringClauseV, TypeBoostClause,
    filter_clause_views, string_clause_views,
};

verus! {

/// The localized variants of a searchable text field.
#[derive(Clone, Copy, Debug, PartialEq, Eq, Structural)]
pub enum LangFieldKind {
    Names,
    Labels,
    LabelsPrefix,
    LabelsNgram,
}

/// The indexed field holding a language's variant of a base field.
pub open spec fn lang_field(kind: LangFieldKind, l: Seq<char>) -> Seq<char> {
    match kind {
        LangFieldKind::Names => "names."@ + l,
        LangFieldKind::Labels => "labels."@ + l,
        LangFieldKind::LabelsPrefix => "labels."@ + l + ".prefix"@,
        LangFieldKind::LabelsNgram => "labels."@ + l + ".ngram"@,
    }
}

fn build_lang_field(kind: LangFieldKind, l: &String) -> (r: String)
    ensures
        r@ == lang_field(kind, l@),
{
    match kind {
        LangFieldKind::Names => String::from_str("names.").concat(l.as_str()),
        LangFieldKind::Labels => String::from_str("labels.").concat(l.as_str()),
        LangFieldKind::LabelsPrefix => {
            String::from_str("labels.").concat(l.as_str()).concat(".prefix")
        },
        LangFieldKind::LabelsNgram => {
            String::from_str("labels.").concat(l.as_str()).concat(".ngram")
        },
    }
}

fn build_lang_fields(kind: LangFieldKind, langs: &Vec<String>) -> (r: Vec<String>)
    ensures
        r@.map_values(|f: String| f@) == langs@.map_values(|l: String| lang_field(kind, l@)),
{
    let mut r: Vec<String> = Vec::new();
    let mut i: usize = 0;
    while i < langs.len()
        invariant
            i <= langs@.len(),
            r@.len() == i,
            forall|j: int| 0 <= j < i ==> #[trigger] r@[j]@ == lang_field(kind, langs@[j]@),
        decreases langs@.len() - i,
    {
        let f = build_lang_field(kind, &langs[i]);
        r.push(f);
        i += 1;
    }
    proof {
        assert(r@.map_values(|f: String| f@) =~= langs@.map_values(
            |l: String| lang_field(kind, l@),
        ));
    }
    r
}

fn clone_ring(v: &Vec<crate::places::Coord>) -> (r: Vec<crate::places::Coord>)
    ensures
        r@ == v@,
{
    let mut r: Vec<crate::places::Coord> = Vec::new();
    let mut i: usize = 0;
    while i < v.len()
        invariant
            i <= v@.len(),
            r@ =~= v@.take(i as int),
        decreases v@.len() - i,
    {
        r.push(v[i]);
        proof {
            assert(r@ =~= v@.take(i as int + 1));
        }
        i += 1;
    }
    proof {
        assert(v@.take(v@.len() as int) =~= v@);
    }
    r
}

fn clone_geometry(g: &Geometry) -> (r: Geometry)
    ensures
        r@ == g@,
{
    let mut rings: Vec<Vec<crate::places::Coord>> = Vec::new();
    let mut i: usize = 0;
    while i < g.rings.len()
        invariant
            i <= g.rings@.len(),
            rings@.len() == i,
            forall|j: int| 0 <= j < i ==> #[trigger] rings@[j]@ == g.rings@[j]@,
        decreases g.rings@.len() - i,
    {
        rings.push(clone_ring(&g.rings[i]));
        i += 1;
    }
    let r = Geometry { rings };
    proof {
        assert(r@ =~= g@);
    }
    r
}

/// The five clauses of the string query every mode shares: boosted matches
/// on name, label, label prefix, zip codes and house number.
pub open spec fn spec_base_string_clauses(
    q: Seq<char>,
    langs: Seq<String>,
    s: StringQuerySettings,
) -> Seq<StringClauseV> {
    seq![
        (StringClauseV::MultiMatch {
            base_field: "name"@,
            lang_fields: langs.map_values(|l: String| lang_field(LangFieldKind::Names, l@)),
            query: q,
            boost: s.boosts.name,
        }),
        (StringClauseV::MultiMatch {
            base_field: "label"@,
            lang_fields: langs.map_values(|l: String| lang_field(LangFieldKind::Labels, l@)),
            query: q,
            boost: s.boosts.label,
        }),
        (StringClauseV::MultiMatch {
            base_field: "label.prefix"@,
            lang_fields: langs.map_values(
                |l: String| lang_field(LangFieldKind::LabelsPrefix, l@),
            ),
            query: q,
            boost: s.boosts.label_prefix,
        }),
        (StringClauseV::MatchField { field: "zip_codes"@, query: q, boost: s.boosts.zip_codes }),
        (StringClauseV::MatchField {
            field: "house_number"@,
            query: q,
            boost: s.boosts.house_number,
        }),
    ]
}

/// The string-query clauses of a mode: fuzzy adds the n-gram clause, boosted
/// higher when a position is present.
pub open spec fn spec_string_clauses(
    q: Seq<char>,
    langs: Seq<String>,
    coord_present: bool,
    mt: MatchType,
    s: StringQuerySettings,
) -> Seq<StringClauseV> {
    let base = spec_base_string_clauses(q, langs, s);
    match mt {
        MatchType::Prefix => base,
        MatchType::Fuzzy => base.push(
            (StringClauseV::MultiMatch {
                base_field: "label.ngram"@,
                lang_fields: langs.map_values(
                    |l: String| lang_field(LangFieldKind::LabelsNgram, l@),
                ),
                query: q,
                boost: if coord_present {
                    s.boosts.label_ngram_with_coord
                } else {
                    s.boosts.label_ngram
                },
            }),
        ),
    }
}

fn build_string_clauses(
    q: &String,
    langs: &Vec<String>,
    coord_present: bool,
    mt: MatchType,
    s: &StringQuerySettings,
) -> (r: Vec<StringClause>)
    ensures
        string_clause_views(r@) == spec_string_clauses(q@, langs@, coord_present, mt, *s),
{
    let mut r: Vec<StringClause> = Vec::new();
    r.push(StringClause::MultiMatch {
        base_field: String::from_str("name"),
        lang_fields: build_lang_fields(LangFieldKind::Names, langs),
        query: q.clone(),
        boost: s.boosts.name,
    });
    r.push(StringClause::MultiMatch {
        base_field: String::from_str("label"),
        lang_fields: build_lang_fields(LangFieldKind::Labels, langs),
        query: q.clone(),
        boost: s.boosts.label,
    });
    r.push(StringClause::MultiMatch {
        base_field: String::from_str("label.prefix"),
        lang_fields: build_lang_fields(LangFieldKind::LabelsPrefix, langs),
        query: q.clone(),
        boost: s.boosts.label_prefix,
    });
    r.push(StringClause::MatchField {
        field: String::from_str("zip_codes"),
        query: q.clone(),
        boost: s.boosts.zip_codes,
    });
    r.push(StringClause::MatchField {
        field: String::from_str("house_number"),
        query: q.clone(),
        boost: s.boosts.house_number,
    });
    if let MatchType::Fuzzy = mt {
        r.push(StringClause::MultiMatch {
            base_field: String::from_str("label.ngram"),
            lang_fields: build_lang_fields(LangFieldKind::LabelsNgram, langs),
            query: q.clone(),
            boost: if coord_present {
                s.boosts.label_ngram_with_coord
            } else {
                s.boosts.label_ngram
            },
        });
    }
    proof {
        assert(string_clause_views(r@) =~= spec_string_clauses(q@, langs@, coord_present, mt, *s));
    }
    r
}

/// The house-number filter: a multi-token query may match a house number,
/// a single-token query requires its absence.
pub open spec fn spec_house_filter(q: Seq<char>) -> FilterClauseV {
    if token_count(q) > 1 {
        FilterClauseV::HouseNumberMatchOrAbsent { query: q }
    } else {
        FilterClauseV::HouseNumberAbsent
    }
}

/// The matching filter of a mode.
pub open spec fn spec_matching_filter(q: Seq<char>, mt: MatchType, pct: u8) -> FilterClauseV {
    match mt {
        MatchType::Prefix => FilterClauseV::PrefixMatch { query: q },
        MatchType::Fuzzy => FilterClauseV::FuzzyMatch { query: q, min_should_match_pct: pct },
    }
}

/// The full filter conjunction: house-number policy, matching policy, the
/// coverage filter unless all data is visible, and the optional shape.
pub open spec fn spec_filters(
    q: Seq<char>,
    pct: u8,
    all_data: bool,
    pt_datasets: Seq<String>,
    shape: Option<Geometry>,
    mt: MatchType,
) -> Seq<FilterClauseV> {
    seq![spec_house_filter(q), spec_matching_filter(q, mt, pct)] + (if all_data {
        Seq::<FilterClauseV>::empty()
    } else {
        seq![
            (FilterClauseV::Coverage { datasets: pt_datasets.map_values(|d: String| d@) }),
        ]
    }) + (match shape {
        None => Seq::<FilterClauseV>::empty(),
        Some(g) => seq![(FilterClauseV::Shape { shape: g@, exclude: PlaceKind::Stop })],
    })
}

fn build_filters(req: &SearchRequest, pct: u8, mt: MatchType) -> (r: Vec<FilterClause>)
    ensures
        filter_clause_views(r@) == spec_filters(
            req.q@,
            pct,
            req.all_data,
            req.pt_datasets@,
            req.shape,
            mt,
        ),
{
    let mut r: Vec<FilterClause> = Vec::new();
    if multi_token(req.q.as_str()) {
        r.push(FilterClause::HouseNumberMatchOrAbsent { query: req.q.clone() });
    } else {
        r.push(FilterClause::HouseNumberAbsent);
    }
    match mt {
        MatchType::Prefix => r.push(FilterClause::PrefixMatch { query: req.q.clone() }),
        MatchType::Fuzzy => r.push(
            FilterClause::FuzzyMatch { query: req.q.clone(), min_should_match_pct: pct },
        ),
    }
    if !req.all_data {
        r.push(FilterClause::Coverage { datasets: clone_strings(&req.pt_datasets) });
    }
    if let Some(g) = &req.shape {
        r.push(FilterClause::Shape { shape: clone_geometry(g), exclude: PlaceKind::Stop });
    }
    proof {
        assert(filter_clause_views(r@) =~= spec_filters(
            req.q@,
            pct,
            req.all_data,
            req.pt_datasets@,
            req.shape,
            mt,
        ));
    }
    r
}

/// The type-prior clauses, in the order the backend receives them.
pub open spec fn spec_type_prior(tb: TypeQueryBoosts) -> Seq<TypeBoostClause> {
    seq![
        (TypeBoostClause { kind: PlaceKind::Addr, boost: tb.address }),
        (TypeBoostClause { kind: PlaceKind::Admin, boost: tb.admin }),
        (TypeBoostClause { kind: PlaceKind::Stop, boost: tb.stop }),
        (TypeBoostClause { kind: PlaceKind::Poi, boost: tb.poi }),
        (TypeBoostClause { kind: PlaceKind::Street, boost: tb.street }),
    ]
}

/// The small-radius weights of a matching mode.
pub open spec fn spec_min_weights(settings: QuerySettings, mt: MatchType) -> BuildWeight {
    match mt {
        MatchType::Prefix => settings.importance_query.weights.min_radius_prefix,
        MatchType::Fuzzy => settings.importance_query.weights.min_radius_fuzzy,
    }
}

/// A scalar lying between two bounds, whichever way they are ordered.
pub open spec fn scalar_between(x: u64, a: u64, b: u64) -> bool {
    (a <= x <= b) || (b <= x <= a)
}

/// Weights lying component-wise between two weight triples.
pub open spec fn build_weight_between(w: BuildWeight, a: BuildWeight, b: BuildWeight) -> bool {
    &&& scalar_between(w.admin, a.admin, b.admin)
    &&& scalar_between(w.factor, a.factor, b.factor)
    &&& scalar_between(w.missing, a.missing, b.missing)
}

/// The importance weights of a request: exactly the large-radius weights
/// when no position is given, otherwise the blend of the mode's small-radius
/// weights and the large-radius weights at the request's zoom ratio, each
/// component lying between its two endpoints.
fn importance_weights(settings: &QuerySettings, mt: MatchType, coord_present: bool) -> (w:
    BuildWeight)
    requires
        settings.valid(),
    ensures
        w.valid(),
        !coord_present ==> w == settings.importance_query.weights.max_radius,
        coord_present ==> build_weight_between(
            w,
            spec_min_weights(*settings, mt),
            settings.importance_query.weights.max_radius,
        ),
{
    let iw = settings.importance_query.weights;
    let max_w = iw.max_radius;
    if !coord_present {
        return max_w;
    }
    let min_w = match mt {
        MatchType::Prefix => iw.min_radius_prefix,
        MatchType::Fuzzy => iw.min_radius_fuzzy,
    };
    let g = settings.importance_query.proximity.gaussian;
    let radius = g.offset + g.scale;
    let ratio = zoom_ratio_ppm(radius, iw.radius_range_min, iw.radius_range_max);
    BuildWeight {
        admin: blend_ppm(ratio, min_w.admin, max_w.admin),
        factor: blend_ppm(ratio, min_w.factor, max_w.factor),
        missing: blend_ppm(ratio, min_w.missing, max_w.missing),
    }
}

/// What the planner promises of its output: both `must` slots, the filter
/// conjunction and the booster list are pinned as functions of the request,
/// the settings and the matching mode; only the blended importance weights
/// are left with their bounds, since they come from the zoom ratio.
pub open spec fn plan_matches(
    r: QueryTree,
    req: SearchRequest,
    settings: QuerySettings,
    mt: MatchType,
) -> bool {
    &&& r.type_prior@ == spec_type_prior(settings.type_query.boosts)
    &&& r.type_prior_boost == settings.type_query.global
    &&& string_clause_views(r.string_clauses@) == spec_string_clauses(
        req.q@,
        req.langs@,
        req.coord is Some,
        mt,
        settings.string_query,
    )
    &&& r.string_boost == settings.string_query.global
    &&& filter_clause_views(r.filters@) == spec_filters(
        req.q@,
        settings.fuzzy_min_should_match_pct,
        req.all_data,
        req.pt_datasets@,
        req.shape,
        mt,
    )
    &&& r.boosters@.len() == 1 + (if req.coord is Some {
        1int
    } else {
        0int
    }) + (if mt is Prefix {
        1int
    } else {
        0int
    })
    &&& r.boosters@[0] matches Booster::TypeWeights { weights, types } && types
        == settings.importance_query.weights.types && weights.valid() && (req.coord
        is Some ==> build_weight_between(
        weights,
        spec_min_weights(settings, mt),
        settings.importance_query.weights.max_radius,
    ))
    &&& req.coord is None ==> r.boosters@[0] == (Booster::TypeWeights {
        weights: settings.importance_query.weights.max_radius,
        types: settings.importance_query.weights.types,
    })
    &&& req.coord is Some ==> r.boosters@[1] == (Booster::ProximityDecay {
        coord: req.coord->Some_0,
        gaussian: settings.importance_query.proximity.gaussian,
        weight: if mt is Fuzzy {
            settings.importance_query.proximity.weight_fuzzy
        } else {
            settings.importance_query.proximity.weight
        },
    })
    &&& mt is Prefix ==> r.boosters@.last() == Booster::AdminBump
}

/// Builds the query for one matching mode. Total: every request yields a
/// tree, whose slots are pinned by [`plan_matches`].
pub fn plan(req: &SearchRequest, settings: &QuerySettings, mt: MatchType) -> (r: QueryTree)
    requires
        settings.valid(),
    ensures
        plan_matches(r, *req, *settings, mt),
{
    let coord_present = req.coord.is_some();
    let type_prior = vec![
        TypeBoostClause { kind: PlaceKind::Addr, boost: settings.type_query.boosts.address },
        TypeBoostClause { kind: PlaceKind::Admin, boost: settings.type_query.boosts.admin },
        TypeBoostClause { kind: PlaceKind::Stop, boost: settings.type_query.boosts.stop },
        TypeBoostClause { kind: PlaceKind::Poi, boost: settings.type_query.boosts.poi },
        TypeBoostClause { kind: PlaceKind::Street, boost: settings.type_query.boosts.street },
    ];
    proof {
        assert(type_prior@ =~= spec_type_prior(settings.type_query.boosts));
    }
    let string_clauses = build_string_clauses(
        &req.q,
        &req.langs,
        coord_present,
        mt,
        &settings.string_query,
    );
    let filters = build_filters(req, settings.fuzzy_min_should_match_pct, mt);
    let weights = importance_weights(settings, mt, coord_present);
    let mut boosters: Vec<Booster> = Vec::new();
    boosters.push(Booster::TypeWeights { weights, types: settings.importance_query.weights.types });
    if let Some(c) = req.coord {
        boosters.push(Booster::ProximityDecay {
            coord: c,
            gaussian: settings.importance_query.proximity.gaussian,
            weight: match mt {
                MatchType::Fuzzy => settings.importance_query.proximity.weight_fuzzy,
                MatchType::Prefix => settings.importance_query.proximity.weight,
            },
        });
    }
    if let MatchType::Prefix = mt {
        boosters.push(Booster::AdminBump);
    }
    QueryTree {
        type_prior,
        type_prior_boost: settings.type_query.global,
        string_clauses,
        string_boost: settings.string_query.global,
        filters,
        boosters,
    }
}

/// Law: for the same request, the fuzzy string query holds exactly one
/// clause more than the prefix one, and agrees with it on the shared prefix
/// of clauses; the extra clause is the n-gram match.
pub proof fn lemma_fuzzy_adds_one_string_clause(
    q: Seq<char>,
    langs: Seq<String>,
    coord_present: bool,
    s: StringQuerySettings,
)
    ensures
        spec_string_clauses(q, langs, coord_present, MatchType::Fuzzy, s).len()
            == spec_string_clauses(q, langs, coord_present, MatchType::Prefix, s).len() + 1,
        spec_string_clauses(q, langs, coord_present, MatchType::Fuzzy, s).take(
            spec_string_clauses(q, langs, coord_present, MatchType::Prefix, s).len() as int,
        ) == spec_string_clauses(q, langs, coord_present, MatchType::Prefix, s),
        spec_string_clauses(q, langs, coord_present, MatchType::Fuzzy, s).last()
            matches StringClauseV::MultiMatch { base_field, .. } && base_field == "label.ngram"@,
{
    let base = spec_base_string_clauses(q, langs, s);
    let fuzzy = spec_string_clauses(q, langs, coord_present, MatchType::Fuzzy, s);
    assert(fuzzy.take(base.len() as int) =~= base);
}

/// Law: a query without any whitespace character is a single token, so the
/// planner's filter demands the absence of a house number.
pub proof fn lemma_whitespace_free_query_excludes_house_numbers(
    q: Seq<char>,
    pct: u8,
    all_data: bool,
    pt_datasets: Seq<String>,
    shape: Option<Geometry>,
    mt: MatchType,
)
    requires
        forall|i: int| 0 <= i < q.len() ==> !is_ws(q[i]),
    ensures
        spec_filters(q, pct, all_data, pt_datasets, shape, mt)[0]
            is HouseNumberAbsent,
{
    lemma_no_ws_single_token(q);
}

/// Law: when all data is visible, no coverage filter is emitted.
pub proof fn lemma_all_data_no_coverage_filter(
    q: Seq<char>,
    pct: u8,
    pt_datasets: Seq<String>,
    shape: Option<Geometry>,
    mt: MatchType,
)
    ensures
        forall|i: int|
            0 <= i < spec_filters(q, pct, true, pt_datasets, shape, mt).len() ==> !(spec_filters(
                q,
                pct,
                true,
                pt_datasets,
                shape,
                mt,
            )[i] is Coverage),
{
    let fs = spec_filters(q, pct, true, pt_datasets, shape, mt);
    assert forall|i: int| 0 <= i < fs.len() implies !(fs[i] is Coverage) by {
        if i == 0 {
            assert(fs[0] == spec_house_filter(q));
        } else if i == 1 {
            assert(fs[1] == spec_matching_filter(q, mt, pct));
        } else {
            assert(match shape {
                None => false,
                Some(g) => fs[i] == (FilterClauseV::Shape { shape: g@, exclude: PlaceKind::Stop }),
            });
        }
    }
}

} // verus!
