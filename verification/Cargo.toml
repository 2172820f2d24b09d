[package]
name = "cluster_controller"
version = "0.1.0"
edition = "2021"
publish = false

[dependencies]
anyhow = "1"
async-trait = "0.1"
axum = "0.7"
bytes = "1"
bytestring = "1"
derive_more = { version = "1", features = ["from", "into", "display"] }
futures = "0.3"
itertools = "0.13"
tokio = { version = "1", features = ["macros", "rt", "sync", "time"] }
tonic = "0.12"
tracing = "0.1"
