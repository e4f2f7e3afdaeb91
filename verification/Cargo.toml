[package]
name = "orzatty"
version = "0.1.0"
edition = "2021"
publish = false

[dependencies]
anyhow = "1"
bytes = "1"
quinn = "0.10"
rcgen = "0.11"
rkyv = { version = "0.7", features = ["validation"] }
rustls = { version = "0.21", features = ["dangerous_configuration", "quic"] }
rustls-native-certs = "0.6"
tokio = { version = "1", features = ["macros", "rt-multi-thread", "sync"] }
