[package]
name = "nusamai"
version = "0.1.0"
edition = "2021"
publish = false

[dependencies]
ahash = "=0.8.12"
bincode = "1"
byteorder = "=1.5.0"
clap = { version = "4", features = ["derive"] }
ctrlc = "3"
deepsize = "0.2"
earcut = "*"
ext-sort = { version = "0.1", features = ["memory-limit"] }
geojson = "0.24"
glob = "0.3"
image = { version = "0.24", default-features = false, features = ["png", "tiff", "jpeg"] }
indexmap = "=2.14.2"
itertools = "=0.12.1"
kml = "0.8"
log = "0.4"
nalgebra = "0.32"
pretty_env_logger = "0.5"
quick-xml = "0.37"
rayon = "1"
serde = { version = "1", features = ["derive"] }
serde_bytes = "0.11"
serde_json = "1"
shellexpand = "3"
sqlx = { version = "0.7", default-features = false, features = ["sqlite", "runtime-tokio"] }
thiserror = "1"
tokio = { version = "1", features = ["rt-multi-thread", "sync"] }
url = "2"
