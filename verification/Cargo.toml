[package]
name = "paxos_replication"
version = "0.1.0"
edition = "2021"
publish = false

[dependencies]
uuid = { version = "1", features = ["v4", "serde"] }
rand = "0.8"
serde = { version = "1", features = ["derive"] }
serde_json = "1"
tokio = { version = "1", features = ["full"] }
axum = "0.7"
reqwest = { version = "0.12", default-features = false, features = ["json"] }
futures = "0.3"
clap = { version = "4", features = ["derive"] }
redis = { version = "0.23", features = ["tokio-comp"] }
chrono = { version = "0.4", default-features = false, features = ["clock"] }

[dev-dependencies]
bincode = "1"
