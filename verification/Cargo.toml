[package]
name = "zakros"
version = "0.1.0"
edition = "2021"
publish = false

[dependencies]
rand = "0.8"
tokio = { version = "1", features = ["full"] }
tokio-util = { version = "0.7", features = ["codec"] }
bytes = "1"
serde = { version = "1", features = ["derive"] }
bincode = "1"
futures = "0.3"
parking_lot = "0.12"
thiserror = "1"
anyhow = "1"
bstr = "1"

[dev-dependencies]
rand_xoshiro = "0.6"
