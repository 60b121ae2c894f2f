[package]
name = "vless_control"
version = "0.1.0"
edition = "2021"
publish = false

[dependencies]
dashmap = "*"
httparse = "*"
rand = "*"
tokio = { version = "*", features = ["rt-multi-thread", "net", "time", "sync", "io-util", "macros", "process"] }
serde = { version = "*", features = ["derive"] }
serde_json = "*"
redis = { version = "*", features = ["tokio-comp"] }
chrono = "*"
uuid = "*"
futures-util = "*"
tokio-tungstenite = "*"
log = "*"
env_logger = "*"
thiserror = "*"
nix = { version = "*", features = ["socket"] }
sqlx = { version = "*", default-features = false, features = ["runtime-tokio", "postgres"] }
