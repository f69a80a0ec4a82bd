[package]
name = "paintrobot"
version = "0.1.0"
edition = "2021"
publish = false

[dependencies]
chrono = { version = "0.4", default-features = false, features = ["alloc", "std", "clock"] }
serde = { version = "1", features = ["derive"] }
serde_json = "1"
thiserror = "2"
async-trait = "0.1"
wstd = "*"
http-body-util = "0.1"
futures-lite = "2"
reqwest = { version = "0.12", default-features = false }
