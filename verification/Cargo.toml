[package]
name = "slashing_protection"
version = "0.1.0"
edition = "2021"
publish = false

[dependencies]
zeroize = "*"
rusqlite = { version = "*", features = ["bundled"] }
r2d2 = "*"
r2d2_sqlite = "*"
serde = { version = "*", features = ["derive"] }
serde_json = "*"
