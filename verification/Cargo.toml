[package]
name = "mimirsbrunn"
version = "0.1.0"
edition = "2021"
publish = false

[dependencies]
itertools = "*"
serde = { version = "*", features = ["derive"] }
serde_json = "*"
elasticsearch = "=8.19.0-alpha.1"
tokio = { version = "*", features = ["rt", "macros"] }
geo = "*"
geo-types = "*"
geojson = "*"
osmpbfreader = "*"
csv = "*"
flate2 = "*"
prometheus = "*"
