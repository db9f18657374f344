[package]
name = "alpha_radar"
version = "0.1.0"
edition = "2021"
publish = false

[dependencies]
csv = "=1.4.0"
encoding_rs = "=0.8.44"
rusqlite = { version = "=0.37.0", features = ["bundled"] }
serde = { version = "=1.0.229", features = ["derive"] }
serde_json = "=1.0.154"
rayon = "=1.12.0"
thiserror = "=2.0.21"
log = "=0.4.35"
