use mimirsbrunn::indexes::get_indexes;
use mimirsbrunn::places::{Place, PlaceDoc, Coord, place_kind_of_doc_type, PlaceKind};
use mimirsbrunn::request::{MatchType, SearchRequest};
use mimirsbrunn::search::{
    autocomplete, features, features_outcome, next_stage, stage_outcome, BragiError, SearchStep,
};
use mimirsbrunn::settings::{
    BuildWeight, GaussianDecay, ImportanceQuerySettings, ImportanceWeights, Proximity,
    QuerySettings, StringBoosts, StringQuerySettings, TypeQueryBoosts, TypeQuerySettings,
    TypeWeights,
};
use mimirsbrunn::tree::FilterClause;

fn settings() -> QuerySettings {
    QuerySettings {
        string_query: StringQuerySettings {
            global: 15_000_000,
            boosts: StringBoosts {
                name: 4_000_000,
                label: 1_000_000,
                label_prefix: 1_000_000,
                zip_codes: 3_000_000,
                house_number: 1_500_000,
                label_ngram: 1_000_000,
                label_ngram_with_coord: 1_000_000,
            },
        },
        type_query: TypeQuerySettings {
            global: 30_000_000,
            boosts: TypeQueryBoosts {
                address: 250_000,
                admin: 3_000_000,
                stop: 14_600_000,
                poi: 3_400_000,
                street: 1_000_000,
            },
        },
        importance_query: ImportanceQuerySettings {
            proximity: Proximity {
                gaussian: GaussianDecay { scale: 50_000_000, offset: 10_000_000, decay: 400_000 },
                weight: 31_000_000,
                weight_fuzzy: 31_000_000,
            },
            weights: ImportanceWeights {
                min_radius_prefix: BuildWeight { admin: 2_000_000, factor: 8_000_000, missing: 500_000 },
                min_radius_fuzzy: BuildWeight { admin: 1_000_000, factor: 4_000_000, missing: 250_000 },
                max_radius: BuildWeight { admin: 6_000_000, factor: 16_000_000, missing: 1_000_000 },
                radius_range_min: 1_000_000,
                radius_range_max: 500_000_000,
                types: TypeWeights {
                    address: 1_000_000,
                    admin: 4_000_000,
                    stop: 2_000_000,
                    poi: 1_500_000,
                    street: 800_000,
                },
            },
        },
        fuzzy_min_should_match_pct: 80,
    }
}

fn request(q: &str) -> SearchRequest {
    SearchRequest {
        q: q.to_string(),
        coord: None,
        shape: None,
        offset: 0,
        limit: 10,
        langs: Vec::new(),
        pt_datasets: Vec::new(),
        poi_datasets: Vec::new(),
        all_data: false,
        types: Vec::new(),
        zone_types: Vec::new(),
        poi_types: Vec::new(),
        debug: false,
        timeout_ms: None,
    }
}

fn doc(id: &str) -> Place {
    Place::Poi(PlaceDoc {
        id: id.to_string(),
        name: "somewhere".to_string(),
        label: "somewhere".to_string(),
        weight: 0,
        coord: Coord { lon_micro: 0, lat_micro: 0 },
        distance: None,
    })
}

#[test]
fn zone_type_filter_needs_zone_type() {
    let s = settings();
    let mut req = request("paris");
    req.zone_types = vec!["city".to_string()];
    match autocomplete(&req, &s) {
        Err(BragiError::InvalidParam { message }) => {
            assert_eq!(message, "zone_type[] parameter requires to have 'type[]=zone'");
        }
        other => panic!("expected an invalid-param error, got {:?}", other),
    }
    req.types = vec!["zone".to_string()];
    assert!(autocomplete(&req, &s).is_ok());
}

#[test]
fn poi_type_filter_needs_poi_type() {
    let s = settings();
    let mut req = request("paris");
    req.poi_types = vec!["theatre".to_string()];
    match autocomplete(&req, &s) {
        Err(BragiError::InvalidParam { message }) => {
            assert_eq!(message, "poi_type[] parameter requires to have 'type[]=poi'");
        }
        other => panic!("expected an invalid-param error, got {:?}", other),
    }
}

#[test]
fn empty_index_set_returns_empty_result() {
    let s = settings();
    let mut req = request("paris");
    // Stops are dataset-scoped: without any transit dataset there is no
    // index to search.
    req.types = vec!["stop".to_string()];
    match autocomplete(&req, &s) {
        Ok(SearchStep::Finished { places }) => assert!(places.is_empty()),
        other => panic!("expected an immediate empty result, got {:?}", other),
    }
}

#[test]
fn empty_index_set_makes_features_fail() {
    let pt: Vec<String> = Vec::new();
    let poi: Vec<String> = Vec::new();
    // The id lookup always resolves the default indexes, so the not-found
    // report comes from a backend answer with zero hits.
    let plan = features(&pt, &poi, false, "admin:fr:75056", None).expect("indexes resolve");
    assert!(plan.ignore_unavailable);
    match features_outcome(0, Vec::new()) {
        Err(BragiError::ObjectNotFound) => {}
        other => panic!("expected object-not-found, got {:?}", other),
    }
}

#[test]
fn prefix_results_suppress_the_fuzzy_stage() {
    let s = settings();
    let req = request("paris");
    let results = vec![doc("poi:1")];
    match next_stage(&req, &s, MatchType::Prefix, results) {
        SearchStep::Finished { places } => assert_eq!(places.len(), 1),
        other => panic!("expected the session to finish, got {:?}", other),
    }
}

#[test]
fn empty_prefix_triggers_exactly_one_fuzzy_stage() {
    let s = settings();
    let mut req = request("xyzqwert");
    req.types = vec!["street".to_string()];
    match autocomplete(&req, &s) {
        Ok(SearchStep::Run { mode, plan }) => {
            assert_eq!(mode, MatchType::Prefix);
            assert_eq!(plan.indexes, vec!["munin_street".to_string()]);
            assert_eq!(plan.tree.string_clauses.len(), 5);
        }
        other => panic!("expected the prefix stage, got {:?}", other),
    }
    match next_stage(&req, &s, MatchType::Prefix, Vec::new()) {
        SearchStep::Run { mode, plan } => {
            assert_eq!(mode, MatchType::Fuzzy);
            // The fuzzy retry carries the n-gram clause.
            assert_eq!(plan.tree.string_clauses.len(), 6);
        }
        other => panic!("expected the fuzzy stage, got {:?}", other),
    }
    // Whatever the fuzzy stage returns, the session then finishes.
    match next_stage(&req, &s, MatchType::Fuzzy, Vec::new()) {
        SearchStep::Finished { places } => assert!(places.is_empty()),
        other => panic!("expected the session to finish, got {:?}", other),
    }
}

#[test]
fn a_failed_stage_is_terminal() {
    let s = settings();
    let req = request("paris");
    // A backend failure in the prefix stage surfaces unchanged: no fuzzy
    // retry follows.
    let failed = Err(BragiError::BackendUnavailable { message: "connection refused".to_string() });
    match stage_outcome(&req, &s, MatchType::Prefix, failed) {
        Err(BragiError::BackendUnavailable { message }) => {
            assert_eq!(message, "connection refused");
        }
        other => panic!("expected the error back, got {:?}", other),
    }
    // A successful empty prefix stage still triggers the fuzzy retry.
    match stage_outcome(&req, &s, MatchType::Prefix, Ok(Vec::new())) {
        Ok(SearchStep::Run { mode, .. }) => assert_eq!(mode, MatchType::Fuzzy),
        other => panic!("expected the fuzzy stage, got {:?}", other),
    }
}

#[test]
fn feature_lookup_is_an_ids_filter_with_coverage() {
    let pt = vec!["fr-idf".to_string()];
    let poi: Vec<String> = Vec::new();
    let plan = features(&pt, &poi, false, "admin:fr:75056", Some(3000)).expect("indexes resolve");
    assert_eq!(plan.filters.len(), 2);
    match &plan.filters[0] {
        FilterClause::Ids { values } => assert_eq!(values, &vec!["admin:fr:75056".to_string()]),
        other => panic!("expected the ids filter, got {:?}", other),
    }
    match &plan.filters[1] {
        FilterClause::Coverage { datasets } => assert_eq!(datasets, &vec!["fr-idf".to_string()]),
        other => panic!("expected the coverage filter, got {:?}", other),
    }
    assert_eq!(plan.timeout_ms, Some(3000));

    let plan = features(&pt, &poi, true, "admin:fr:75056", None).expect("indexes resolve");
    assert_eq!(plan.filters.len(), 1);
    assert_eq!(plan.indexes, vec!["munin".to_string()]);

    match features_outcome(2, vec![doc("admin:fr:75056")]) {
        Ok(places) => assert_eq!(places.len(), 1),
        other => panic!("expected the places back, got {:?}", other),
    }
}

#[test]
fn index_derivation_follows_visibility() {
    let pt = vec!["fr-idf".to_string()];
    let poi: Vec<String> = Vec::new();
    let none: Vec<String> = Vec::new();
    assert_eq!(get_indexes(true, &pt, &poi, &none), vec!["munin".to_string()]);
    assert_eq!(
        get_indexes(false, &pt, &poi, &none),
        vec![
            "munin_addr".to_string(),
            "munin_admin".to_string(),
            "munin_street".to_string(),
            "munin_poi".to_string(),
            "munin_stop_fr-idf".to_string(),
        ]
    );
    let types = vec!["admin".to_string(), "stop".to_string()];
    assert_eq!(
        get_indexes(false, &pt, &poi, &types),
        vec!["munin_admin".to_string(), "munin_stop_fr-idf".to_string()]
    );
}

#[test]
fn backend_type_discriminators_map_to_kinds() {
    assert_eq!(place_kind_of_doc_type("addr"), Some(PlaceKind::Addr));
    assert_eq!(place_kind_of_doc_type("street"), Some(PlaceKind::Street));
    assert_eq!(place_kind_of_doc_type("admin"), Some(PlaceKind::Admin));
    assert_eq!(place_kind_of_doc_type("poi"), Some(PlaceKind::Poi));
    assert_eq!(place_kind_of_doc_type("stop"), Some(PlaceKind::Stop));
    assert_eq!(place_kind_of_doc_type("unknown"), None);
}
