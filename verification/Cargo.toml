[package]
name = "divamodarchive"
version = "0.1.0"
edition = "2021"
publish = false

[dependencies]
base64 = "=0.22.1"
itertools = "=0.13.0"
axum = { version = "=0.7.9", features = ["ws"] }
axum-extra = { version = "=0.9.6", features = ["cookie", "query"] }
tokio = { version = "=1.54.1", features = ["full"] }
sqlx = { version = "=0.8.6", default-features = false, features = ["runtime-tokio", "postgres", "time", "macros", "migrate"] }
meilisearch-sdk = "=0.27.1"
serde = { version = "=1.0.229", features = ["derive"] }
serde_json = "=1.0.154"
time = { version = "=0.3.55", features = ["serde", "serde-well-known"] }
jsonwebtoken = "=9.3.1"
reqwest = { version = "=0.12.28", default-features = false, features = ["json", "rustls-tls"] }
quick-xml = { version = "=0.36.2", features = ["serialize"] }
tower-http = { version = "=0.5.2", features = ["cors", "compression-gzip", "compression-deflate", "compression-br", "compression-zstd"] }
dotenvy = "=0.15.7"
temp-dir = "=0.1.16"
toml = "=0.8.23"
walkdir = "=2.5.0"
slab_tree = "=0.3.2"
