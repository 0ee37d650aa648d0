[package]
name = "netbench"
version = "0.1.0"
edition = "2021"
publish = false

[dependencies]
bytes = "1"
sha2 = "0.10"
serde = { version = "1", features = ["derive"] }
serde_json = "1"
tokio = { version = "1", features = ["rt-multi-thread", "macros", "net", "io-util", "time"] }
