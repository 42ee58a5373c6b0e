[package]
name = "address_book"
version = "0.1.0"
edition = "2021"
publish = false

[dependencies]
alloy = { version = "=0.8.3", features = ["consensus", "eips", "network", "provider-http"] }
bincode = "=1.3.3"
dotenv = "=0.15.0"
reqwest = { version = "=0.12.28", default-features = false }
serde = { version = "=1.0.229", features = ["derive"] }
tokio = { version = "=1.54.1", features = ["fs", "io-util", "macros", "rt-multi-thread", "time"] }
