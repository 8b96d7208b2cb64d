[package]
name = "moon_sources"
version = "0.1.0"
edition = "2021"
publish = false

[dependencies]
blake3 = "=1.8.7"
bytes = "=1.12.1"
clap = { version = "=4.6.7", features = ["derive", "env"] }
daggy = "=0.9.0"
indexmap = "=2.14.2"
miette = "=7.6.0"
notify-debouncer-full = "=0.7.0"
petgraph = "=0.8.3"
regex = "=1.13.1"
rustc-hash = "=2.1.3"
scc = "3"
serde = { version = "=1.0.229", features = ["derive"] }
serde_json = "=1.0.154"
sha2 = "=0.11.1"
starbase_utils = { version = "=0.14.10", features = ["glob", "json"] }
tokio = { version = "=1.54.1", features = ["full"] }
tonic = "=0.14.9"
