[package]
name = "polymarket_indexer"
version = "0.1.0"
edition = "2021"
publish = false

[dependencies]
hex = "*"
serde_json = "*"
chrono = { version = "*", default-features = false, features = ["clock"] }
serde = { version = "*", features = ["derive"] }
reqwest = { version = "*", default-features = false, features = ["json", "rustls-tls"] }
tokio = { version = "*", features = ["rt-multi-thread", "macros", "time", "signal"] }
sqlx = { version = "*", default-features = false, features = ["runtime-tokio", "postgres"] }
dotenv = "*"
eyre = "*"
tracing = "*"
tracing-subscriber = "*"
tiny-keccak = { version = "*", features = ["keccak"] }
