[package]
name = "fsonline"
version = "0.1.0"
edition = "2021"
publish = false

[dependencies]
anyhow = "1"
async-trait = "0.1"
axum = "0.8"
axum-extra = { version = "*", features = ["typed-header"] }
axum-server = { version = "*", features = ["tls-rustls"] }
bytes = "1"
chromiumoxide = { version = "*" }
chrono = { version = "0.4", features = ["serde"] }
clap = { version = "4", features = ["derive", "env"] }
dashmap = "6"
dotenvy = "0.15"
foyer = { version = "*", features = ["serde"] }
futures = "0.3"
m3u8-rs = "*"
md5 = "*"
moka = { version = "0.12", features = ["future"] }
mpeg2ts-reader = "*"
mut-binary-heap = "*"
regex = "1"
reqwest = { version = "0.12", default-features = false, features = ["json", "stream", "rustls-tls"] }
scraper = "*"
serde = { version = "1", features = ["derive"] }
sqlx = { version = "0.8", default-features = false, features = ["runtime-tokio", "sqlite"] }
tokio = { version = "1", features = ["full"] }
tokio-util = { version = "0.7", features = ["codec"] }
tower-http = { version = "0.6", features = ["cors", "fs"] }
tracing = "0.1"
tracing-appender = "0.2"
tracing-subscriber = { version = "0.3", features = ["env-filter"] }
uuid = { version = "1", features = ["v4", "serde"] }
