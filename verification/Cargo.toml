[package]
name = "traverse_cli"
version = "0.1.0"
edition = "2021"
publish = false

[dependencies]
serde = { version = "1", features = ["derive"] }
serde_json = "1"
sha2 = "0.10"
uuid = { version = "1", features = ["v4"] }
chrono = { version = "0.4", default-features = false, features = ["std", "clock", "serde"] }
ed25519-dalek = "2"
qrcode = { version = "0.14", default-features = false }
semver = "1"
zeroize = "1"
