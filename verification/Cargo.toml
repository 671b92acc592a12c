[package]
name = "coin_ingest"
version = "0.1.0"
edition = "2021"
publish = false

[dependencies]
chrono = "0.4"
diesel = { version = "2", features = ["sqlite"] }
dotenv = "0.15"
governor = "*"
libsqlite3-sys = { version = "0.30", features = ["bundled"] }
reqwest = { version = "0.12", default-features = false, features = ["rustls-tls"] }
serde = { version = "1", features = ["derive"] }
serde_json = "1"
tokio = { version = "1", features = ["rt-multi-thread", "macros", "time"] }
