[package]
name = "meilisearch-sql-connector"
version = "0.1.0"
edition = "2021"
publish = false

[dependencies]
async-trait = "*"
clap = { version = "*", features = ["derive"] }
colored = "*"
meilisearch-sdk = "*"
serde = { version = "*", features = ["derive"] }
serde_json = "*"
sqlx = { version = "*", default-features = false, features = ["sqlite", "runtime-tokio", "macros"] }
tokio = { version = "*", features = ["macros", "rt-multi-thread", "signal", "sync", "time"] }
toml = "*"
tracing = "*"
tracing-subscriber = { version = "*", features = ["env-filter"] }
url = "*"
