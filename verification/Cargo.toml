[package]
name = "edr_agent"
version = "0.1.0"
edition = "2021"
publish = false

[dependencies]
anyhow = "*"
ed25519-dalek = "*"
hex = "*"
hostname = "*"
netstat2 = "*"
notify = "*"
reqwest = { version = "*", default-features = false, features = ["blocking"] }
serde = { version = "*", features = ["derive"] }
serde_json = "*"
sha2 = "*"
sha3 = "*"
sysinfo = "*"
walkdir = "*"
