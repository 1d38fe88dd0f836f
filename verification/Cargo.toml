[package]
name = "samuraizer"
version = "0.1.0"
edition = "2021"
publish = false

[dependencies]
base64 = "0.21"
chrono = "0.4"
chrono-tz = "0.8"
crossbeam-channel = "0.5"
encoding_rs = "0.8"
globset = "0.4"
infer = "0.15"
lru = "0.12"
mime_guess = "2"
num_cpus = "1"
once_cell = "1"
parking_lot = "0.12"
pyo3 = "0.20"
rayon = "1"
regex = "1"
rusqlite = "0.31"
serde = { version = "1", features = ["derive"] }
serde_json = "1"
thiserror = "1"
walkdir = "2"
xxhash-rust = { version = "0.8", features = ["xxh64"] }
