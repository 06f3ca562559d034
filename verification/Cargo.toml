[package]
name = "lockbook"
version = "0.1.0"
edition = "2021"
publish = false

[dependencies]
aead = "0.4"
aes-gcm = "0.9"
rand = "0.8"
bincode = "1"
uuid = { version = "1", features = ["v4"] }
serde = { version = "1", features = ["derive"] }
serde_json = "1"
egui = { version = "0.22", default-features = false }
tokio = { version = "1", features = ["rt", "macros", "time", "signal"] }
ureq = { version = "2", default-features = false }
atty = "0.2"
