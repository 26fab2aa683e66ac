use std::collections::HashSet;
use mimirsbrunn::admin::{
    format_zip_codes, get_zone_type, normalize_admin_weight, read_administrative_regions,
    read_insee, read_zip_codes, AdminMatcher, RelCentroid,
};
use mimirsbrunn::osm::{
    OsmCollection, OsmId, OsmNode, OsmObj, OsmRef, OsmRelation, OsmWay, Tag, Tags,
};
use mimirsbrunn::places::{Admin, Coord, ZoneType};
use mimirsbrunn::street::{compute_street_weight, streets, WayAdmins, WayChains};
use mimirsbrunn::text::{multi_token, parse_u64, trim_leading_zeros, u64_to_dec};

fn tags(pairs: &[(&str, &str)]) -> Tags {
    Tags {
        entries: pairs
            .iter()
            .map(|(k, v)| Tag { key: k.to_string(), value: v.to_string() })
            .collect(),
    }
}

fn admin(id: &str, name: &str, zone_type: Option<ZoneType>, weight: u64) -> Admin {
    Admin {
        id: id.to_string(),
        insee: String::new(),
        level: 8,
        name: name.to_string(),
        label: name.to_string(),
        zip_codes: Vec::new(),
        population: 0,
        weight,
        coord: Coord { lon_micro: 0, lat_micro: 0 },
        zone_type,
        parent_id: None,
        codes: Vec::new(),
        country_codes: Vec::new(),
        distance: None,
    }
}

#[test]
fn should_return_correct_admin_type() {
    assert_eq!(get_zone_type(1, 1), Some(ZoneType::City));
    assert_eq!(get_zone_type(2, 1), None);
}

#[test]
fn zip_code_suffix_formats() {
    assert_eq!(format_zip_codes(&Vec::new()), "");
    assert_eq!(format_zip_codes(&vec!["75001".to_string()]), " (75001)");
    assert_eq!(
        format_zip_codes(&vec!["75001".to_string(), "75020".to_string()]),
        " (75001-75020)"
    );
}

#[test]
fn zip_codes_are_split_sorted_and_deduplicated() {
    let t = tags(&[("addr:postcode", "75020;75001;;75001")]);
    assert_eq!(read_zip_codes(&t), vec!["75001".to_string(), "75020".to_string()]);
    let t = tags(&[("postal_code", "13005")]);
    assert_eq!(read_zip_codes(&t), vec!["13005".to_string()]);
    let t = tags(&[]);
    assert!(read_zip_codes(&t).is_empty());
}

#[test]
fn insee_drops_leading_zeros() {
    let t = tags(&[("ref:INSEE", "075056")]);
    assert_eq!(read_insee(&t), Some("75056".to_string()));
    let t = tags(&[]);
    assert_eq!(read_insee(&t), None);
}

#[test]
fn coordinates_must_lie_on_the_globe() {
    assert!(Coord::new(2_352_200, 48_856_600).is_some());
    assert!(Coord::new(180_000_001, 0).is_none());
    assert!(Coord::new(0, -90_000_001).is_none());
}

#[test]
fn text_utilities_work() {
    assert!(multi_token("20 rue de rivoli"));
    assert!(!multi_token("paris"));
    assert!(!multi_token("  paris  "));
    assert_eq!(parse_u64("2148000"), Some(2148000));
    assert_eq!(parse_u64("12a"), None);
    assert_eq!(parse_u64(""), None);
    assert_eq!(trim_leading_zeros("00075"), "75");
    assert_eq!(u64_to_dec(98765), "98765");
}

#[test]
fn admin_matcher_checks_boundary_and_level() {
    let mut levels = HashSet::new();
    levels.insert(8u32);
    let matcher = AdminMatcher::new(levels);
    let good = OsmObj::Relation(OsmRelation {
        id: 1,
        refs: Vec::new(),
        tags: tags(&[("boundary", "administrative"), ("admin_level", "8")]),
    });
    assert!(matcher.is_admin(&good));
    let wrong_level = OsmObj::Relation(OsmRelation {
        id: 2,
        refs: Vec::new(),
        tags: tags(&[("boundary", "administrative"), ("admin_level", "6")]),
    });
    assert!(!matcher.is_admin(&wrong_level));
    let not_admin = OsmObj::Relation(OsmRelation {
        id: 3,
        refs: Vec::new(),
        tags: tags(&[("boundary", "postal"), ("admin_level", "8")]),
    });
    assert!(!matcher.is_admin(&not_admin));
}

#[test]
fn unparsable_admin_level_never_matches() {
    // Even with level zero configured, a level tag that is not a plain
    // decimal number matches nothing.
    let mut levels = HashSet::new();
    levels.insert(0u32);
    levels.insert(8u32);
    let matcher = AdminMatcher::new(levels);
    let garbled = OsmObj::Relation(OsmRelation {
        id: 4,
        refs: Vec::new(),
        tags: tags(&[("boundary", "administrative"), ("admin_level", "eight")]),
    });
    assert!(!matcher.is_admin(&garbled));
    let missing = OsmObj::Relation(OsmRelation {
        id: 5,
        refs: Vec::new(),
        tags: tags(&[("boundary", "administrative")]),
    });
    assert!(!matcher.is_admin(&missing));
}

fn admin_collection() -> OsmCollection {
    OsmCollection {
        nodes: vec![OsmNode {
            id: 100,
            coord: Coord { lon_micro: 2_352_200, lat_micro: 48_856_600 },
            tags: tags(&[("population", "2148000")]),
        }],
        ways: Vec::new(),
        relations: vec![
            OsmRelation {
                id: 7444,
                refs: vec![OsmRef { member: OsmId::Node(100), role: "admin_centre".to_string() }],
                tags: tags(&[
                    ("boundary", "administrative"),
                    ("admin_level", "8"),
                    ("name", "Paris"),
                    ("ref:INSEE", "075056"),
                    ("addr:postcode", "75020;75001"),
                    ("ISO3166-2", "FR-75"),
                ]),
            },
            OsmRelation {
                id: 8000,
                refs: Vec::new(),
                tags: tags(&[
                    ("boundary", "administrative"),
                    ("admin_level", "8"),
                    ("name", "Petiteville"),
                    ("population", "1074000"),
                ]),
            },
        ],
    }
}

#[test]
fn admins_are_read_and_weights_normalized() {
    let objs = admin_collection();
    let mut levels = HashSet::new();
    levels.insert(8u32);
    let centroids = vec![RelCentroid {
        rel_id: 8000,
        coord: Coord { lon_micro: 5_000_000, lat_micro: 45_000_000 },
    }];
    let admins = read_administrative_regions(&objs, levels, 8, &centroids);
    assert_eq!(admins.len(), 2);
    // The relation without an admin-centre node falls back to the
    // precomputed centroid.
    assert_eq!(admins[1].coord, Coord { lon_micro: 5_000_000, lat_micro: 45_000_000 });
    let paris = &admins[0];
    assert_eq!(paris.id, "admin:fr:75056");
    assert_eq!(paris.insee, "75056");
    assert_eq!(paris.name, "Paris");
    assert_eq!(paris.label, "Paris (75001-75020)");
    assert_eq!(paris.zip_codes, vec!["75001".to_string(), "75020".to_string()]);
    assert_eq!(paris.zone_type, Some(ZoneType::City));
    assert_eq!(paris.population, 2_148_000);
    assert_eq!(paris.coord, Coord { lon_micro: 2_352_200, lat_micro: 48_856_600 });
    // Keyed codes carry exactly the country-code-prefixed tags.
    assert_eq!(paris.codes.len(), 1);
    assert_eq!(paris.codes[0].key, "ISO3166-2");
    assert_eq!(paris.codes[0].value, "FR-75");
    // The level maximum lands exactly at one unit; the other at its share.
    assert_eq!(paris.weight, 1_000_000);
    assert_eq!(admins[1].weight, 500_000);
}

#[test]
fn duplicate_insee_falls_back_to_the_relation_id() {
    let mut objs = admin_collection();
    objs.relations.push(OsmRelation {
        id: 9001,
        refs: Vec::new(),
        tags: tags(&[
            ("boundary", "administrative"),
            ("admin_level", "8"),
            ("name", "Paris encore"),
            ("ref:INSEE", "75056"),
        ]),
    });
    let mut levels = HashSet::new();
    levels.insert(8u32);
    let admins = read_administrative_regions(&objs, levels, 8, &Vec::new());
    assert_eq!(admins.len(), 3);
    assert_eq!(admins[0].id, "admin:fr:75056");
    assert_eq!(admins[2].id, "admin:osm:relation:9001");
    assert_eq!(admins[2].insee, "75056");
}

#[test]
fn weight_normalization_keeps_all_weights_in_range() {
    let mut admins = vec![
        {
            let mut a = admin("a", "A", None, 0);
            a.population = 10;
            a
        },
        {
            let mut a = admin("b", "B", None, 0);
            a.population = 40;
            a
        },
        {
            let mut a = admin("c", "C", None, 0);
            a.level = 4;
            a.population = 0;
            a
        },
    ];
    normalize_admin_weight(&mut admins);
    assert_eq!(admins[0].weight, 250_000);
    assert_eq!(admins[1].weight, 1_000_000);
    assert_eq!(admins[2].weight, 0);
    assert!(admins.iter().all(|a| a.weight <= 1_000_000));
}

fn city(id: &str, name: &str, weight: u64) -> Admin {
    admin(id, name, Some(ZoneType::City), weight)
}

fn street_way(id: i64, name: &str, nodes: &[i64]) -> OsmWay {
    OsmWay {
        id,
        nodes: nodes.to_vec(),
        tags: tags(&[("highway", "residential"), ("name", name)]),
    }
}

fn node(id: i64, lon: i64, lat: i64) -> OsmNode {
    OsmNode { id, coord: Coord { lon_micro: lon, lat_micro: lat }, tags: tags(&[]) }
}

#[test]
fn associated_street_relation_groups_its_ways() {
    let objs = OsmCollection {
        nodes: vec![node(1, 10, 10), node(2, 20, 20)],
        ways: vec![street_way(11, "Rue X", &[1]), street_way(12, "Rue X", &[2])],
        relations: vec![OsmRelation {
            id: 555,
            refs: vec![
                OsmRef { member: OsmId::Way(11), role: "street".to_string() },
                OsmRef { member: OsmId::Way(12), role: "street".to_string() },
            ],
            tags: tags(&[("type", "associatedStreet"), ("name", "Rue X")]),
        }],
    };
    let way_admins = WayAdmins {
        entries: vec![
            WayChains { way_id: 11, chains: vec![vec![city("admin:fr:1", "Ville", 700_000)]] },
            WayChains { way_id: 12, chains: vec![vec![city("admin:fr:1", "Ville", 700_000)]] },
        ],
    };
    let docs = streets(&objs, &way_admins);
    assert_eq!(docs.len(), 1);
    assert_eq!(docs[0].id, "street:osm:relation:555");
    assert_eq!(docs[0].name, "Rue X");
    assert_eq!(docs[0].label, "Rue X (Ville)");
    assert!(docs.iter().all(|d| !d.id.starts_with("street:osm:way:")));
}

#[test]
fn same_name_in_distinct_cities_stays_distinct() {
    let objs = OsmCollection {
        nodes: vec![node(1, 10, 10), node(2, 20, 20), node(3, 30, 30)],
        ways: vec![
            street_way(21, "Main St", &[1]),
            street_way(22, "Main St", &[2]),
            street_way(23, "Main St", &[3]),
        ],
        relations: Vec::new(),
    };
    let way_admins = WayAdmins {
        entries: vec![
            WayChains { way_id: 21, chains: vec![vec![city("admin:fr:1", "Aville", 700_000)]] },
            WayChains { way_id: 22, chains: vec![vec![city("admin:fr:2", "Beville", 600_000)]] },
            WayChains { way_id: 23, chains: vec![vec![city("admin:fr:1", "Aville", 700_000)]] },
        ],
    };
    let docs = streets(&objs, &way_admins);
    // One document per (name, city) group, named after the smallest way id.
    assert_eq!(docs.len(), 2);
    let mut ids: Vec<&str> = docs.iter().map(|d| d.id.as_str()).collect();
    ids.sort();
    assert_eq!(ids, vec!["street:osm:way:21", "street:osm:way:22"]);
    // The city that keyed each group is stored in the document's hierarchy.
    for d in &docs {
        assert_eq!(d.administrative_regions.len(), 1);
        assert!(d.administrative_regions[0].zone_type == Some(ZoneType::City));
    }
}

#[test]
fn street_ingestion_is_deterministic() {
    let build = || {
        let objs = OsmCollection {
            nodes: vec![node(1, 10, 10), node(2, 20, 20)],
            ways: vec![street_way(31, "Rue A", &[1]), street_way(32, "Rue B", &[2])],
            relations: Vec::new(),
        };
        let way_admins = WayAdmins {
            entries: vec![
                WayChains { way_id: 31, chains: vec![vec![city("admin:fr:1", "Ville", 1)]] },
                WayChains { way_id: 32, chains: vec![vec![city("admin:fr:1", "Ville", 1)]] },
            ],
        };
        streets(&objs, &way_admins).iter().map(|d| d.id.clone()).collect::<Vec<_>>()
    };
    assert_eq!(build(), build());
}

#[test]
fn street_weight_comes_from_the_city() {
    let objs = OsmCollection {
        nodes: vec![node(1, 10, 10)],
        ways: vec![street_way(41, "Rue P", &[1])],
        relations: Vec::new(),
    };
    let way_admins = WayAdmins {
        entries: vec![WayChains {
            way_id: 41,
            chains: vec![vec![admin("admin:fr:9", "Region", Some(ZoneType::State), 900_000),
                city("admin:fr:1", "Ville", 700_000)]],
        }],
    };
    let mut docs = streets(&objs, &way_admins);
    assert_eq!(docs[0].weight, 0);
    compute_street_weight(&mut docs);
    assert_eq!(docs[0].weight, 700_000);
    // The city whose weight was copied sits in the street's own hierarchy.
    assert!(docs[0]
        .administrative_regions
        .iter()
        .any(|a| a.id == "admin:fr:1" && a.weight == 700_000));
}
