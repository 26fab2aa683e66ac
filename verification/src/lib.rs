//! Core of a geographic place-search service.
//!
//! The crate holds the query planner that turns a user request into a
//! structured search-engine query tree, the two-stage autocomplete
//! orchestration (strict prefix match, then a fuzzy n-gram fallback), the
//! exact-id feature lookup, and the OSM ingestion passes that produce
//! canonical administrative-region and street records.
//!
//! All scalar tuning values (field boosts, importance weights, decay
//! parameters) are carried as non-negative fixed-point numbers in millionths,
//! so that every computation on them is exact integer arithmetic.

pub mod addr;
pub mod admin;
pub mod indexes;
pub mod osm;
pub mod places;
pub mod planner;
pub mod request;
pub mod scalar;
pub mod search;
pub mod settings;
pub mod street;
pub mod text;
pub mod tree;
