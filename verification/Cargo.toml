[package]
name = "tourney_ingest"
version = "0.1.0"
edition = "2021"
publish = false

[dependencies]
futures = "0.3"
graphql_client = { version = "0.14", default-features = false }
rand = "0.9"
reqwest = { version = "0.12", default-features = false, features = ["json", "rustls-tls"] }
rusqlite = { version = "*", features = ["bundled"] }
serde = { version = "1", features = ["derive"] }
tokio = { version = "1", features = ["macros", "rt-multi-thread", "time"] }
toml = "0.8"
