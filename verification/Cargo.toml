[package]
name = "reinitialized_contracts"
version = "0.1.0"
edition = "2021"
publish = false

[dependencies]
alloy-primitives = { version = "1", features = ["serde"] }
alloy-rpc-types-trace = "2"
anyhow = "1"
clap = { version = "4", default-features = false, features = ["std", "derive", "help", "usage", "error-context"] }
dotenv = "0.15"
futures = "0.3"
num_cpus = "1"
rayon = "1"
reqwest = { version = "0.12", default-features = false, features = ["json"] }
serde = { version = "1", features = ["derive"] }
serde_json = "1"
tokio = { version = "1", features = ["rt-multi-thread"] }
tracing-subscriber = { version = "0.3", default-features = false, features = ["std", "fmt", "env-filter"] }
