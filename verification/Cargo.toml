[package]
name = "songarr"
version = "0.1.0"
edition = "2021"
publish = false

[dependencies]
anyhow = "=1.0.104"
axum = "0.7"
deunicode = "=1.6.2"
md5 = "=0.7.0"
quick-xml = "0.36"
rand = "=0.8.8"
reqwest = { version = "0.12", default-features = false, features = ["json", "rustls-tls"] }
serde = { version = "=1.0.229", features = ["derive"] }
serde_json = "=1.0.154"
sqlx = { version = "0.8", default-features = false, features = ["runtime-tokio", "sqlite"] }
strsim = "=0.11.1"
tokio = { version = "1", features = ["macros", "rt-multi-thread", "net", "process", "time", "fs", "io-util", "sync"] }
toml = "=0.8.23"
tracing = "0.1"
tracing-subscriber = { version = "0.3", features = ["env-filter"] }
url = "=2.5.8"
uuid = { version = "=1.29.0", features = ["v4"] }
