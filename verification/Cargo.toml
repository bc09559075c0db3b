[package]
name = "stellar_k8s"
version = "0.1.0"
edition = "2021"
publish = false

[dependencies]
chrono = { version = "0.4", features = ["serde"] }
sha2 = "0.10"
hmac = "0.12"
hex = "0.4"
uuid = { version = "1", features = ["v4"] }
serde = { version = "1", features = ["derive"] }
serde_json = "1"
tokio = { version = "1", features = ["rt-multi-thread", "macros", "sync", "time"] }
tracing = "0.1"
futures = "0.3"
async-trait = "0.1"
thiserror = "1"
schemars = "0.8"
prometheus-client = "0.22"
axum = "0.7"
reqwest = { version = "0.12", default-features = false, features = ["json"] }
kube = { version = "0.98", default-features = false, features = ["client", "runtime", "derive"] }
k8s-openapi = { version = "0.24", features = ["latest"] }
