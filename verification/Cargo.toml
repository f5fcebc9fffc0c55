[package]
name = "energy_meter"
version = "0.1.0"
edition = "2021"
publish = false

[dependencies]
anyhow = "1"
async-stream = "0.3"
chrono = "0.4"
clap = { version = "4", features = ["derive", "env"] }
csv = "1"
dsmr5 = "*"
futures = "0.3"
reqwest = { version = "0.11", default-features = false }
rust_decimal = "1"
serde = { version = "1", features = ["derive"] }
sha256 = { version = "1", default-features = false }
sled = "0.34"
tokio = { version = "1", features = ["macros", "rt-multi-thread", "time"] }
