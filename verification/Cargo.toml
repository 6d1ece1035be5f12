[package]
name = "slates_server"
version = "0.1.0"
edition = "2021"
publish = false

[dependencies]
blake3 = { version = "1", features = ["pure"] }
rustix = { version = "1", features = ["process"] }
rustls = { version = "0.23", default-features = false, features = ["std"] }

[dev-dependencies]
rcgen = "0.13"
