[package]
name = "ontology_core"
version = "0.1.0"
edition = "2021"
publish = false

[dependencies]
serde_json = "1"
uuid = { version = "1", features = ["v4"] }
chrono = "0.4"
serde = { version = "1", features = ["derive"] }
thiserror = "1"
async-trait = "0.1"
tokio = { version = "1", features = ["rt", "sync", "macros"] }
elasticsearch = "8.5.0-alpha.1"
dgraph-tonic = "*"
