use mimirsbrunn::places::{Coord, PlaceKind};
use mimirsbrunn::planner::plan;
use mimirsbrunn::request::{MatchType, SearchRequest};
use mimirsbrunn::scalar::{blend_ppm, ln1p_ppm, zoom_ratio_ppm, PPM};
use mimirsbrunn::settings::{
    BuildWeight, GaussianDecay, ImportanceQuerySettings, ImportanceWeights, Proximity,
    QuerySettings, StringBoosts, StringQuerySettings, TypeQueryBoosts, TypeQuerySettings,
    TypeWeights,
};
use mimirsbrunn::tree::{Booster, FilterClause, StringClause};

fn settings() -> QuerySettings {
    QuerySettings {
        string_query: StringQuerySettings {
            global: 15_000_000,
            boosts: StringBoosts {
                name: 4_000_000,
                label: 1_000_000,
                label_prefix: 1_000_000,
                zip_codes: 3_000_000,
                house_number: 1_500_000,
                label_ngram: 1_000_000,
                label_ngram_with_coord: 1_000_000,
            },
        },
        type_query: TypeQuerySettings {
            global: 30_000_000,
            boosts: TypeQueryBoosts {
                address: 250_000,
                admin: 3_000_000,
                stop: 14_600_000,
                poi: 3_400_000,
                street: 1_000_000,
            },
        },
        importance_query: ImportanceQuerySettings {
            proximity: Proximity {
                gaussian: GaussianDecay {
                    scale: 50_000_000,
                    offset: 10_000_000,
                    decay: 400_000,
                },
                weight: 31_000_000,
                weight_fuzzy: 31_000_000,
            },
            weights: ImportanceWeights {
                min_radius_prefix: BuildWeight { admin: 2_000_000, factor: 8_000_000, missing: 500_000 },
                min_radius_fuzzy: BuildWeight { admin: 1_000_000, factor: 4_000_000, missing: 250_000 },
                max_radius: BuildWeight { admin: 6_000_000, factor: 16_000_000, missing: 1_000_000 },
                radius_range_min: 1_000_000,
                radius_range_max: 500_000_000,
                types: TypeWeights {
                    address: 1_000_000,
                    admin: 4_000_000,
                    stop: 2_000_000,
                    poi: 1_500_000,
                    street: 800_000,
                },
            },
        },
        fuzzy_min_should_match_pct: 80,
    }
}

fn request(q: &str) -> SearchRequest {
    SearchRequest {
        q: q.to_string(),
        coord: None,
        shape: None,
        offset: 0,
        limit: 10,
        langs: Vec::new(),
        pt_datasets: Vec::new(),
        poi_datasets: Vec::new(),
        all_data: false,
        types: Vec::new(),
        zone_types: Vec::new(),
        poi_types: Vec::new(),
        debug: false,
        timeout_ms: None,
    }
}

#[test]
fn both_modes_fill_every_slot() {
    let s = settings();
    let req = request("paris");
    for mt in [MatchType::Prefix, MatchType::Fuzzy] {
        let t = plan(&req, &s, mt);
        assert_eq!(t.type_prior.len(), 5);
        assert!(t.string_clauses.len() >= 5);
        assert!(t.filters.len() >= 2);
        assert!(!t.boosters.is_empty());
    }
}

#[test]
fn fuzzy_has_one_extra_string_clause() {
    let s = settings();
    let req = request("paris");
    let p = plan(&req, &s, MatchType::Prefix);
    let f = plan(&req, &s, MatchType::Fuzzy);
    assert_eq!(f.string_clauses.len(), p.string_clauses.len() + 1);
    match f.string_clauses.last().unwrap() {
        StringClause::MultiMatch { base_field, boost, .. } => {
            assert_eq!(base_field, "label.ngram");
            assert_eq!(*boost, s.string_query.boosts.label_ngram);
        }
        other => panic!("unexpected final clause: {:?}", other),
    }
}

#[test]
fn no_coord_uses_max_radius_weights_exactly() {
    let s = settings();
    let req = request("paris");
    let t = plan(&req, &s, MatchType::Prefix);
    match t.boosters[0] {
        Booster::TypeWeights { weights, types } => {
            assert_eq!(weights, s.importance_query.weights.max_radius);
            assert_eq!(types, s.importance_query.weights.types);
        }
        other => panic!("unexpected first booster: {:?}", other),
    }
}

#[test]
fn zoom_ratio_stays_in_unit_range() {
    for radius in [0u64, 500_000, 1_000_000, 60_000_000, 500_000_000, 900_000_000_000] {
        let r = zoom_ratio_ppm(radius, 1_000_000, 500_000_000);
        assert!(r <= PPM);
    }
    // Exactly zero at or below the smallest radius, exactly one unit at or
    // above the largest.
    assert_eq!(zoom_ratio_ppm(0, 1_000_000, 500_000_000), 0);
    assert_eq!(zoom_ratio_ppm(1_000_000, 1_000_000, 500_000_000), 0);
    assert_eq!(zoom_ratio_ppm(500_000_000, 1_000_000, 500_000_000), PPM);
    assert_eq!(zoom_ratio_ppm(900_000_000_000, 1_000_000, 500_000_000), PPM);
    assert_eq!(ln1p_ppm(0), 0);
    // One unit of argument lands in the second octave of the curve.
    let l = ln1p_ppm(1_000_000);
    assert!(693_147 <= l && l < 2 * 693_147);
    // Larger radii never shrink the ratio.
    let mut last: u64 = 0;
    for radius in [0u64, 2_000_000, 10_000_000, 60_000_000, 200_000_000, 500_000_000] {
        let r = zoom_ratio_ppm(radius, 1_000_000, 500_000_000);
        assert!(r >= last);
        last = r;
    }
    assert_eq!(blend_ppm(0, 123, 456), 123);
    assert_eq!(blend_ppm(PPM, 123, 456), 456);
    // The blend is the exact integer quotient, between its endpoints.
    assert_eq!(blend_ppm(250_000, 0, 1_000_000), 250_000);
    assert_eq!(blend_ppm(500_000, 400_000, 200_000), 300_000);
}

#[test]
fn single_token_query_excludes_house_numbers() {
    let s = settings();
    let req = request("paris");
    let t = plan(&req, &s, MatchType::Prefix);
    assert!(matches!(t.filters[0], FilterClause::HouseNumberAbsent));
}

#[test]
fn all_data_omits_the_coverage_filter() {
    let s = settings();
    let mut req = request("paris");
    req.all_data = true;
    let t = plan(&req, &s, MatchType::Prefix);
    assert!(
        !t.filters.iter().any(|f| matches!(f, FilterClause::Coverage { .. }))
    );
    req.all_data = false;
    let t = plan(&req, &s, MatchType::Prefix);
    assert!(
        t.filters.iter().any(|f| matches!(f, FilterClause::Coverage { .. }))
    );
}

#[test]
fn admin_search_without_coord_boosts_admins_and_bumps_them() {
    let s = settings();
    let mut req = request("paris");
    req.types = vec!["admin".to_string()];
    req.all_data = true;
    let t = plan(&req, &s, MatchType::Prefix);
    let admin_clause = t
        .type_prior
        .iter()
        .find(|c| c.kind == PlaceKind::Admin)
        .expect("admin type prior present");
    assert_eq!(admin_clause.boost, s.type_query.boosts.admin);
    assert!(matches!(t.filters[0], FilterClause::HouseNumberAbsent));
    assert!(!t.filters.iter().any(|f| matches!(f, FilterClause::Coverage { .. })));
    assert!(matches!(t.boosters.last().unwrap(), Booster::AdminBump));
    assert!(!t.boosters.iter().any(|b| matches!(b, Booster::ProximityDecay { .. })));
}

#[test]
fn house_number_query_with_coord_gets_proximity_and_loose_filter() {
    let s = settings();
    let mut req = request("20 rue de rivoli");
    req.coord = Some(Coord { lon_micro: 2_352_200, lat_micro: 48_856_600 });
    let t = plan(&req, &s, MatchType::Prefix);
    match &t.filters[0] {
        FilterClause::HouseNumberMatchOrAbsent { query } => {
            assert_eq!(query, "20 rue de rivoli");
        }
        other => panic!("unexpected house-number filter: {:?}", other),
    }
    match &t.boosters[1] {
        Booster::ProximityDecay { coord, gaussian, weight } => {
            assert_eq!(coord.lon_micro, 2_352_200);
            assert_eq!(coord.lat_micro, 48_856_600);
            assert_eq!(*gaussian, s.importance_query.proximity.gaussian);
            assert_eq!(*weight, s.importance_query.proximity.weight);
        }
        other => panic!("unexpected second booster: {:?}", other),
    }
}

#[test]
fn localized_fields_follow_the_languages() {
    let s = settings();
    let mut req = request("paris");
    req.langs = vec!["fr".to_string(), "de".to_string()];
    let t = plan(&req, &s, MatchType::Prefix);
    match &t.string_clauses[0] {
        StringClause::MultiMatch { base_field, lang_fields, query, boost } => {
            assert_eq!(base_field, "name");
            assert_eq!(lang_fields, &vec!["names.fr".to_string(), "names.de".to_string()]);
            assert_eq!(query, "paris");
            assert_eq!(*boost, s.string_query.boosts.name);
        }
        other => panic!("unexpected first clause: {:?}", other),
    }
    match &t.string_clauses[2] {
        StringClause::MultiMatch { base_field, lang_fields, .. } => {
            assert_eq!(base_field, "label.prefix");
            assert_eq!(
                lang_fields,
                &vec!["labels.fr.prefix".to_string(), "labels.de.prefix".to_string()]
            );
        }
        other => panic!("unexpected third clause: {:?}", other),
    }
}
