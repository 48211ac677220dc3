[package]
name = "ndc_spec"
version = "0.1.0"
edition = "2021"
publish = false

[dependencies]
indexmap = { version = "=2.14.2", features = ["serde"] }
serde = { version = "=1.0.229", features = ["derive"] }
serde_json = "=1.0.154"
url = "=2.5.8"
semver = "=1.0.28"
iso8601 = "=0.6.6"
regex = "=1.13.1"
axum = "=0.7.9"
tokio = { version = "=1.54.1", features = ["macros", "rt-multi-thread", "net", "sync", "signal"] }
prometheus = { version = "=0.13.4", default-features = false }
rand = { version = "0.8", features = ["small_rng"] }
