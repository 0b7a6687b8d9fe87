[package]
name = "kurabase"
version = "0.1.0"
edition = "2021"
publish = false

[dependencies]
alloy = { version = "1", default-features = false, features = ["std"] }
anyhow = "1"
axum = { version = "0.8", default-features = false, features = ["http1", "json", "tokio", "query"] }
base64 = "0.22"
serde = { version = "1", features = ["derive"] }
serde_json = "1"
sqlparser = { version = "0.41", features = ["serde", "visitor"] }
thiserror = "2"
tokio = { version = "1", features = ["macros", "rt-multi-thread", "net", "sync", "time"] }
tower-http = { version = "0.6", features = ["cors"] }
tracing = "0.1"
tracing-subscriber = { version = "0.3", features = ["env-filter"] }
url = "2"
