[package]
name = "pacquet_package_manager"
version = "0.1.0"
edition = "2021"
publish = false

[dependencies]
async-recursion = "1"
base64 = "0.22"
dashmap = "6"
derive_more = { version = "1", features = ["display", "error"] }
futures-util = "0.3"
httpdate = "1"
miette = "7"
node-semver = "2"
pipe-trait = "0.4"
rayon = "1"
reflink-copy = "0.1"
serde = { version = "1", features = ["derive"] }
serde_json = "1"
serde_yaml = "0.9"
sha2 = "0.10"
tracing = "0.1"
