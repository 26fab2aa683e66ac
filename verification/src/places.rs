//! Data model for the places the search engine stores: administrative
//! regions, streets, addresses, points of interest and public-transport
//! stops.
//!
//! Coordinates are WGS84 longitude/latitude carried in microdegrees, so a
//! longitude lies in [-180_000_000, 180_000_000] and a latitude in
//! [-90_000_000, 90_000_000].

use vstd::prelude::*;

verus! {

/// Kind of zone an administrative region represents.
#[derive(Clone, Copy, Debug, PartialEq, Eq, Structural)]
pub enum ZoneType {
    Suburb,
    CityDistrict,
    City,
    StateDistrict,
    State,
    CountryRegion,
    Country,
    NonAdministrative,
}

/// A WGS84 position in microdegrees of longitude and latitude.
#[derive(Clone, Copy, Debug, PartialEq, Eq, Structural)]
pub struct Coord {
    pub lon_micro: i64,
    pub lat_micro: i64,
}

impl Coord {
    /// A coordinate is valid when it lies on the globe.
    pub open spec fn valid(self) -> bool {
        -180_000_000 <= self.lon_micro <= 180_000_000
            && -90_000_000 <= self.lat_micro <= 90_000_000
    }

    pub fn new(lon_micro: i64, lat_micro: i64) -> (r: Option<Coord>)
        ensures
            r is Some <==> (Coord { lon_micro, lat_micro }).valid(),
            r is Some ==> r->Some_0 == (Coord { lon_micro, lat_micro }),
    {
        let c = Coord { lon_micro, lat_micro };
        if -180_000_000 <= lon_micro && lon_micro <= 180_000_000 && -90_000_000 <= lat_micro
            && lat_micro <= 90_000_000 {
            Some(c)
        } else {
            None
        }
    }
}

/// A key/value code attached to a place, from the source data's tags.
#[derive(Clone, Debug)]
pub struct PropertyCode {
    pub key: String,
    pub value: String,
}

/// An administrative region.
#[derive(Debug)]
pub struct Admin {
    /// Stable scheme-prefixed identifier.
    pub id: String,
    /// National statistical code, empty when unknown.
    pub insee: String,
    /// OSM administrative level.
    pub level: u32,
    pub name: String,
    /// Name followed by the formatted zip-code suffix.
    pub label: String,
    /// Sorted, deduplicated zip codes.
    pub zip_codes: Vec<String>,
    /// Raw population count the weight is normalized from.
    pub population: u64,
    /// Importance in millionths, normalized per level so the maximum is one
    /// unit.
    pub weight: u64,
    pub coord: Coord,
    pub zone_type: Option<ZoneType>,
    pub parent_id: Option<String>,
    pub codes: Vec<PropertyCode>,
    pub country_codes: Vec<String>,
    pub distance: Option<u32>,
}

impl Admin {
    /// Whether the region is a city.
    pub fn is_city(&self) -> (r: bool)
        ensures
            r == (self.zone_type == Some(ZoneType::City)),
    {
        match self.zone_type {
            Some(ZoneType::City) => true,
            _ => false,
        }
    }
}

/// A street, with the administrative hierarchy that contains it.
#[derive(Debug)]
pub struct Street {
    pub id: String,
    pub name: String,
    pub label: String,
    /// Importance in millionths, copied from the containing city.
    pub weight: u64,
    pub coord: Coord,
    pub zip_codes: Vec<String>,
    /// Containing admins, ordered outermost first.
    pub administrative_regions: Vec<Admin>,
    pub country_codes: Vec<String>,
    pub distance: Option<u32>,
}

/// A place document of one of the remaining kinds, as the orchestrator
/// passes it through.
#[derive(Debug)]
pub struct PlaceDoc {
    pub id: String,
    pub name: String,
    pub label: String,
    pub weight: u64,
    pub coord: Coord,
    pub distance: Option<u32>,
}

/// A decoded search hit.
#[derive(Debug)]
pub enum Place {
    Admin(Admin),
    Street(Street),
    Addr(PlaceDoc),
    Poi(PlaceDoc),
    Stop(PlaceDoc),
}

/// The kinds of place documents the index stores.
#[derive(Clone, Copy, Debug, PartialEq, Eq, Structural)]
pub enum PlaceKind {
    Addr,
    Street,
    Admin,
    Poi,
    Stop,
}

/// The document-type discriminator the backend stores for a kind.
pub open spec fn spec_doc_type(k: PlaceKind) -> Seq<char> {
    match k {
        PlaceKind::Addr => "addr"@,
        PlaceKind::Street => "street"@,
        PlaceKind::Admin => "admin"@,
        PlaceKind::Poi => "poi"@,
        PlaceKind::Stop => "stop"@,
    }
}

pub fn doc_type(k: PlaceKind) -> (r: &'static str)
    ensures
        r@ == spec_doc_type(k),
{
    match k {
        PlaceKind::Addr => "addr",
        PlaceKind::Street => "street",
        PlaceKind::Admin => "admin",
        PlaceKind::Poi => "poi",
        PlaceKind::Stop => "stop",
    }
}

/// The kind a backend type discriminator denotes, if any.
pub fn place_kind_of_doc_type(s: &str) -> (r: Option<PlaceKind>)
    ensures
        r == spec_place_kind_of_doc_type(s@),
{
    proof {
        reveal_strlit("addr");
        reveal_strlit("street");
        reveal_strlit("admin");
        reveal_strlit("poi");
        reveal_strlit("stop");
    }
    if crate::text::str_eq(s, "addr") {
        Some(PlaceKind::Addr)
    } else if crate::text::str_eq(s, "street") {
        Some(PlaceKind::Street)
    } else if crate::text::str_eq(s, "admin") {
        Some(PlaceKind::Admin)
    } else if crate::text::str_eq(s, "poi") {
        Some(PlaceKind::Poi)
    } else if crate::text::str_eq(s, "stop") {
        Some(PlaceKind::Stop)
    } else {
        None
    }
}

pub open spec fn spec_place_kind_of_doc_type(s: Seq<char>) -> Option<PlaceKind> {
    if s == "addr"@ {
        Some(PlaceKind::Addr)
    } else if s == "street"@ {
        Some(PlaceKind::Street)
    } else if s == "admin"@ {
        Some(PlaceKind::Admin)
    } else if s == "poi"@ {
        Some(PlaceKind::Poi)
    } else if s == "stop"@ {
        Some(PlaceKind::Stop)
    } else {
        None
    }
}

/// A geographic shape: a polygon given as rings of positions, the exterior
/// ring first.
#[derive(Clone, Debug)]
pub struct Geometry {
    pub rings: Vec<Vec<Coord>>,
}

impl View for Geometry {
    type V = Seq<Seq<Coord>>;

    open spec fn view(&self) -> Seq<Seq<Coord>> {
        self.rings@.map_values(|r: Vec<Coord>| r@)
    }
}

} // verus!
