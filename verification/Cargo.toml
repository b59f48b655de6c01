[package]
name = "futaba"
version = "0.1.0"
edition = "2021"
publish = false

[dependencies]
anyhow = "=1.0.104"
async-trait = "=0.1.92"
axum = { version = "=0.7.9", default-features = false, features = ["http1", "query", "tokio"] }
base64-url = "=2.0.2"
chrono = "=0.4.45"
dashmap = "=5.5.3"
futures = "=0.3.34"
google-calendar3 = "=5.0.5"
google-generative-ai-rs = "=0.3.4"
jwt = "=0.16.0"
log = "=0.4.34"
once_cell = "=1.21.4"
pretty_env_logger = "=0.5.0"
regex = "=1.13.1"
reqwest = { version = "=0.11.27", default-features = false, features = ["json", "rustls-tls"] }
rsa = "=0.9.10"
serde = { version = "=1.0.229", features = ["derive"] }
serde_json = "=1.0.154"
serde_repr = "=0.1.21"
serenity = { version = "=0.11.7", default-features = false, features = ["builder", "cache", "chrono", "client", "gateway", "http", "model", "rustls_backend", "utils"] }
sha2 = { version = "=0.10.9", features = ["oid"] }
sqlx = { version = "=0.7.4", default-features = false, features = ["runtime-tokio", "sqlite"] }
tokio = { version = "=1.54.1", features = ["fs", "macros", "rt-multi-thread", "signal", "sync", "net"] }
toml = "=0.5.11"
uuid = { version = "=1.29.0", features = ["v4", "serde"] }
