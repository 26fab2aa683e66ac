//! The autocomplete orchestrator and the exact-id feature lookup.
//!
//! Searching is a short session: the caller asks for the first step, runs
//! the emitted plan against the backend, and hands the decoded results back
//! for the next step. The contracts pin the two-stage strategy: the strict
//! prefix stage runs first, and the fuzzy stage runs exactly when the prefix
//! stage came back empty.

use vstd::prelude::*;
use crate::indexes::{get_indexes, spec_indexes};
use crate::places::Place;
use crate::planner::{plan, plan_matches};
use crate::request::{views_of, MatchType, SearchRequest};
use crate::settings::QuerySettings;
use crate::text::{has_str, str_eq};
use crate::tree::{FilterClause, FilterClauseV, QueryTree, filter_clause_views};

verus! {

/// The errors the search surface reports.
#[derive(Debug)]
pub enum BragiError {
    /// A request-side validation failure.
    InvalidParam { message: String },
    /// The exact-id lookup hit nothing.
    ObjectNotFound,
    /// Transport or decoding failure of the backend.
    BackendUnavailable { message: String },
    /// A malformed request body.
    InvalidJson { message: String },
}

/// One backend call, fully determined: where to search, what to send, and
/// the call options.
#[derive(Debug)]
pub struct SearchPlan {
    pub indexes: Vec<String>,
    pub tree: QueryTree,
    pub from: u64,
    pub size: u64,
    /// Missing indexes are skipped rather than failing the call.
    pub ignore_unavailable: bool,
    /// The bulky boundary field is never fetched.
    pub exclude_boundary: bool,
    /// Ask the backend to explain scores.
    pub explain: bool,
    pub timeout_ms: Option<u64>,
}

/// What to do next in the two-stage session.
#[derive(Debug)]
pub enum SearchStep {
    /// Run this plan against the backend, then report its results.
    Run { mode: MatchType, plan: SearchPlan },
    /// The session is over.
    Finished { places: Vec<Place> },
}

fn contains_str(v: &Vec<String>, s: &str) -> (r: bool)
    ensures
        r == has_str(v@, s@),
{
    let mut i: usize = 0;
    while i < v.len()
        invariant
            i <= v@.len(),
            forall|j: int| 0 <= j < i ==> v@[j]@ != s@,
        decreases v@.len() - i,
    {
        if str_eq(v[i].as_str(), s) {
            return true;
        }
        i += 1;
    }
    false
}

/// The zone-type filter needs the zone type requested.
pub open spec fn zone_types_misused(req: SearchRequest) -> bool {
    req.zone_types@.len() > 0 && !has_str(req.types@, "zone"@)
}

/// The poi-type filter needs the poi type requested.
pub open spec fn poi_types_misused(req: SearchRequest) -> bool {
    req.poi_types@.len() > 0 && !has_str(req.types@, "poi"@)
}

/// What a search plan for a mode must hold.
pub open spec fn search_plan_matches(
    p: SearchPlan,
    req: SearchRequest,
    settings: QuerySettings,
    mt: MatchType,
) -> bool {
    &&& views_of(p.indexes@) == spec_indexes(
        req.all_data,
        req.pt_datasets@,
        req.poi_datasets@,
        req.types@,
    )
    &&& plan_matches(p.tree, req, settings, mt)
    &&& p.from == req.offset
    &&& p.size == req.limit
    &&& p.ignore_unavailable
    &&& p.exclude_boundary
    &&& p.explain == req.debug
    &&& p.timeout_ms == req.timeout_ms
}

fn make_search_plan(req: &SearchRequest, settings: &QuerySettings, mt: MatchType) -> (r:
    SearchPlan)
    requires
        settings.valid(),
    ensures
        search_plan_matches(r, *req, *settings, mt),
{
    SearchPlan {
        indexes: get_indexes(req.all_data, &req.pt_datasets, &req.poi_datasets, &req.types),
        tree: plan(req, settings, mt),
        from: req.offset,
        size: req.limit,
        ignore_unavailable: true,
        exclude_boundary: true,
        explain: req.debug,
        timeout_ms: req.timeout_ms,
    }
}

/// Starts an autocomplete session: validates the request, resolves the
/// indexes, and either finishes at once with no results (nothing to search)
/// or asks for the prefix stage to be run.
pub fn autocomplete(req: &SearchRequest, settings: &QuerySettings) -> (r: Result<
    SearchStep,
    BragiError,
>)
    requires
        settings.valid(),
    ensures
        r is Err <==> zone_types_misused(*req) || poi_types_misused(*req),
        zone_types_misused(*req) ==> (r matches Err(BragiError::InvalidParam { message })
            && message@ == "zone_type[] parameter requires to have 'type[]=zone'"@),
        !zone_types_misused(*req) && poi_types_misused(*req) ==> (r matches Err(
            BragiError::InvalidParam { message },
        ) && message@ == "poi_type[] parameter requires to have 'type[]=poi'"@),
        r is Ok ==> ({
            let idx = spec_indexes(
                req.all_data,
                req.pt_datasets@,
                req.poi_datasets@,
                req.types@,
            );
            if idx.len() == 0 {
                r->Ok_0 matches SearchStep::Finished { places } && places@.len() == 0
            } else {
                r->Ok_0 matches SearchStep::Run { mode, plan: p } && mode is Prefix
                    && search_plan_matches(p, *req, *settings, MatchType::Prefix)
            }
        }),
{
    proof {
        reveal_strlit("zone");
        reveal_strlit("poi");
    }
    if req.zone_types.len() > 0 && !contains_str(&req.types, "zone") {
        return Err(
            BragiError::InvalidParam {
                message: String::from_str("zone_type[] parameter requires to have 'type[]=zone'"),
            },
        );
    }
    if req.poi_types.len() > 0 && !contains_str(&req.types, "poi") {
        return Err(
            BragiError::InvalidParam {
                message: String::from_str("poi_type[] parameter requires to have 'type[]=poi'"),
            },
        );
    }
    let p = make_search_plan(req, settings, MatchType::Prefix);
    if p.indexes.len() == 0 {
        return Ok(SearchStep::Finished { places: Vec::new() });
    }
    Ok(SearchStep::Run { mode: MatchType::Prefix, plan: p })
}

/// Decides what follows a completed stage: results from the prefix stage
/// are final when non-empty; an empty prefix stage triggers the one fuzzy
/// retry; fuzzy results are always final.
pub fn next_stage(
    req: &SearchRequest,
    settings: &QuerySettings,
    mode: MatchType,
    results: Vec<Place>,
) -> (r: SearchStep)
    requires
        settings.valid(),
    ensures
        mode is Fuzzy ==> (r matches SearchStep::Finished { places } && places == results),
        mode is Prefix && results@.len() > 0 ==> (r matches SearchStep::Finished { places }
            && places == results),
        mode is Prefix && results@.len() == 0 ==> (r matches SearchStep::Run { mode: m, plan: p }
            && m is Fuzzy && search_plan_matches(p, *req, *settings, MatchType::Fuzzy)),
{
    match mode {
        MatchType::Fuzzy => SearchStep::Finished { places: results },
        MatchType::Prefix => {
            if results.len() > 0 {
                SearchStep::Finished { places: results }
            } else {
                SearchStep::Run {
                    mode: MatchType::Fuzzy,
                    plan: make_search_plan(req, settings, MatchType::Fuzzy),
                }
            }
        },
    }
}

/// Decides what follows a completed backend call, error included: a failed
/// stage is terminal — its error is surfaced unchanged and no further
/// stage runs, so a failed prefix stage is never retried as fuzzy.
pub fn stage_outcome(
    req: &SearchRequest,
    settings: &QuerySettings,
    mode: MatchType,
    outcome: Result<Vec<Place>, BragiError>,
) -> (r: Result<SearchStep, BragiError>)
    requires
        settings.valid(),
    ensures
        outcome matches Err(e) ==> (r matches Err(e2) && e2 == e),
        outcome matches Ok(results) ==> (r matches Ok(step) && {
            &&& mode is Fuzzy ==> (step matches SearchStep::Finished { places } && places
                == results)
            &&& mode is Prefix && results@.len() > 0 ==> (step matches SearchStep::Finished {
                places,
            } && places == results)
            &&& mode is Prefix && results@.len() == 0 ==> (step matches SearchStep::Run {
                mode: m,
                plan: p,
            } && m is Fuzzy && search_plan_matches(p, *req, *settings, MatchType::Fuzzy))
        }),
{
    match outcome {
        Err(e) => Err(e),
        Ok(results) => Ok(next_stage(req, settings, mode, results)),
    }
}

/// The filters of the exact-id lookup: the id itself, and the coverage
/// clause unless all data is visible.
pub open spec fn spec_feature_filters(
    id: Seq<char>,
    all_data: bool,
    pt_datasets: Seq<String>,
) -> Seq<FilterClauseV> {
    seq![(FilterClauseV::Ids { values: seq![id] })] + (if all_data {
        Seq::<FilterClauseV>::empty()
    } else {
        seq![
            (FilterClauseV::Coverage {
                datasets: pt_datasets.map_values(|d: String| d@),
            }),
        ]
    })
}

/// A planned exact-id lookup: the indexes to search and the filters; the
/// query carries no scoring.
#[derive(Debug)]
pub struct FeaturesPlan {
    pub indexes: Vec<String>,
    pub filters: Vec<FilterClause>,
    pub ignore_unavailable: bool,
    pub timeout_ms: Option<u64>,
}

/// Plans the lookup of one place by id, honoring dataset visibility. When
/// no index is visible the object cannot exist, which is reported at once.
pub fn features(
    pt_datasets: &Vec<String>,
    poi_datasets: &Vec<String>,
    all_data: bool,
    id: &str,
    timeout_ms: Option<u64>,
) -> (r: Result<FeaturesPlan, BragiError>)
    ensures
        r is Err <==> spec_indexes(
            all_data,
            pt_datasets@,
            poi_datasets@,
            Seq::<String>::empty(),
        ).len() == 0,
        r is Err ==> r matches Err(BragiError::ObjectNotFound),
        r is Ok ==> (r matches Ok(p) && views_of(p.indexes@) == spec_indexes(
            all_data,
            pt_datasets@,
            poi_datasets@,
            Seq::<String>::empty(),
        ) && filter_clause_views(p.filters@) == spec_feature_filters(
            id@,
            all_data,
            pt_datasets@,
        ) && p.ignore_unavailable && p.timeout_ms == timeout_ms),
{
    let no_types: Vec<String> = Vec::new();
    let indexes = get_indexes(all_data, pt_datasets, poi_datasets, &no_types);
    if indexes.len() == 0 {
        return Err(BragiError::ObjectNotFound);
    }
    let mut filters: Vec<FilterClause> = Vec::new();
    let mut ids: Vec<String> = Vec::new();
    ids.push(String::from_str(id));
    proof {
        assert(ids@.map_values(|v: String| v@) =~= seq![id@]);
    }
    filters.push(FilterClause::Ids { values: ids });
    if !all_data {
        let mut datasets: Vec<String> = Vec::new();
        let mut i: usize = 0;
        while i < pt_datasets.len()
            invariant
                i <= pt_datasets@.len(),
                datasets@.len() == i,
                forall|j: int| 0 <= j < i ==> datasets@[j] == pt_datasets@[j],
            decreases pt_datasets@.len() - i,
        {
            datasets.push(pt_datasets[i].clone());
            i += 1;
        }
        proof {
            assert(datasets@ =~= pt_datasets@);
        }
        filters.push(FilterClause::Coverage { datasets });
    }
    proof {
        assert(filter_clause_views(filters@) =~= spec_feature_filters(
            id@,
            all_data,
            pt_datasets@,
        ));
    }
    Ok(FeaturesPlan { indexes, filters, ignore_unavailable: true, timeout_ms })
}

/// Turns the backend's answer to an exact-id lookup into the caller's
/// result: no hit means the object does not exist.
pub fn features_outcome(hit_total: u64, places: Vec<Place>) -> (r: Result<Vec<Place>, BragiError>)
    ensures
        hit_total == 0 <==> r matches Err(BragiError::ObjectNotFound),
        hit_total > 0 ==> (r matches Ok(p) && p == places),
{
    if hit_total == 0 {
        Err(BragiError::ObjectNotFound)
    } else {
        Ok(places)
    }
}

} // verus!
