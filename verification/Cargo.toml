[package]
name = "vantage"
version = "0.1.0"
edition = "2021"
publish = false

[dependencies]
sha2 = "*"
xxhash-rust = { version = "*", features = ["xxh3"] }
serde = { version = "1", features = ["derive"] }
serde_json = "1"
thiserror = "*"
anyhow = "1"
clap = { version = "4", features = ["derive"] }
ignore = "*"
tokio = { version = "1", features = ["macros", "rt-multi-thread", "net"] }
axum = "*"
tower-http = { version = "*", features = ["cors"] }
reqwest = { version = "*", default-features = false, features = ["json"] }
