use mimirsbrunn::addr::{addr_country_stat_key, addr_should_index};
use mimirsbrunn::places::{Admin, Coord, ZoneType};

fn admin(name: &str, zone_type: Option<ZoneType>, country_codes: &[&str]) -> Admin {
    Admin {
        id: name.to_string(),
        insee: String::new(),
        level: 2,
        name: name.to_string(),
        label: name.to_string(),
        zip_codes: Vec::new(),
        population: 0,
        weight: 0,
        coord: Coord { lon_micro: 0, lat_micro: 0 },
        zone_type,
        parent_id: None,
        codes: Vec::new(),
        country_codes: country_codes.iter().map(|c| c.to_string()).collect(),
    distance: None,
    }
}

#[test]
fn addresses_without_street_names_are_dropped() {
    assert!(!addr_should_index(""));
    assert!(addr_should_index("rue de la paix"));
}

#[test]
fn country_statistics_use_the_smallest_code() {
    let admins = vec![
        admin("Paris", Some(ZoneType::City), &[]),
        admin("France", Some(ZoneType::Country), &["fr", "bl"]),
    ];
    assert_eq!(addr_country_stat_key(&admins), "bl");
    let admins = vec![admin("Atlantis", Some(ZoneType::Country), &[])];
    assert_eq!(addr_country_stat_key(&admins), "Atlantis");
    let admins = vec![admin("Paris", Some(ZoneType::City), &[])];
    assert_eq!(addr_country_stat_key(&admins), "other");
}
