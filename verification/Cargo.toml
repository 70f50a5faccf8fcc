[package]
name = "juncture-core"
version = "0.1.0"
edition = "2021"
publish = false

[dependencies]
serde = { version = "1", features = ["derive"] }
serde_json = "1"
chrono = { version = "0.4", default-features = false, features = ["clock", "serde", "std"] }
uuid = { version = "1", features = ["v4", "v6"] }
rand = "0.9"
indexmap = "2"
xxhash-rust = { version = "0.8", features = ["xxh3"] }
thiserror = "2"
tokio = { version = "1", features = ["rt", "rt-multi-thread", "time", "sync", "macros"] }
reqwest = { version = "0.12", default-features = false, features = ["json"] }
tracing = "0.1"
async-trait = "0.1"
futures = "0.3"
