[package]
name = "kvs"
version = "0.1.0"
edition = "2021"
publish = false

[dependencies]
serde_json = "1"
sled = "0.34"
bstr = "1"
crossbeam = "0.8"
rayon = "1"
clap = "2"
ctrlc = "3"
slog = "2"
slog-async = "2"
slog-json = "2"

[dev-dependencies]
tempfile = "3"
