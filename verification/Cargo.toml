[package]
name = "neutrino"
version = "0.1.0"
edition = "2021"
publish = false

[dependencies]
async-trait = "0.1"
axum = "0.8"
indexmap = "2"
rand = "0.9"
reqwest = { version = "0.12", default-features = false, features = ["json"] }
ruma = { version = "*", features = ["client-api", "events", "canonical-json", "unstable-msc4186"] }
rustls = { version = "0.23", default-features = false, features = ["ring", "std"] }
serde = { version = "1", features = ["derive"] }
serde_json = { version = "1", features = ["raw_value"] }
thiserror = "2"
tokio = { version = "1", features = ["macros", "net", "rt-multi-thread", "sync", "time"] }
tracing = "0.1"
