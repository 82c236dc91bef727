[package]
name = "hocg_fan_sim_assets"
version = "0.1.0"
edition = "2021"
publish = false

[dependencies]
csv = "1"
httpdate = "1"
clap = { version = "4", features = ["derive"] }
dotenvy = "0.15"
image = { version = "0.25", default-features = false, features = ["png", "webp", "jpeg"] }
image_hasher = "3"
indexmap = "2"
itertools = "0.14"
json-pretty-compact = "*"
oxipng = { version = "9", default-features = false }
palette = "0.7"
parking_lot = "0.12"
rayon = "1"
reqwest = { version = "0.12", default-features = false, features = ["blocking", "json", "cookies", "rustls-tls"] }
rusqlite = { version = "*", features = ["bundled"] }
scraper = "*"
serde = { version = "1", features = ["derive"] }
serde_json = "1"
tempfile = "3"
walkdir = "2"
webp = "0.3"
zip = { version = "*", default-features = false, features = ["deflate"] }
