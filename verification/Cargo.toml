[package]
name = "home_control_backend"
version = "0.1.0"
edition = "2021"
publish = false

[dependencies]
sha2 = "0.10"
actix-web = "4"
actix-files = "0.6"
serde = { version = "1", features = ["derive"] }
serde_json = "1"
jsonwebtoken = "9"
tokio = { version = "1", features = ["sync", "macros", "rt-multi-thread", "time"] }
lazy_static = "1"
async-trait = "0.1"
dyn-clone = "1"
log = "0.4"
anyhow = "1"
narwhal-tooth = "*"
