[package]
name = "registry"
version = "0.1.0"
edition = "2021"
publish = false

[dependencies]
xxhash-rust = { version = "=0.8.19", features = ["xxh64"] }
serde = { version = "=1.0.229", default-features = false, features = ["std"] }
colored = "=2.2.0"
bevy = { version = "0.16", default-features = false }
