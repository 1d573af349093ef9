[package]
name = "cargo_raze"
version = "0.1.0"
edition = "2021"
publish = false

[dependencies]
cargo-platform = "=0.3.3"
url = "=1.7.2"
serde = { version = "=1.0.229", features = ["derive"] }
toml = "=0.4.10"
chrono = "0.4"
fern = "=0.4.4"
log = "=0.3.9"
