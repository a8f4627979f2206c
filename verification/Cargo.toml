[package]
name = "conduit_iface"
version = "0.1.0"
edition = "2021"
publish = false

[dependencies]
anyhow = "*"
clap = "*"
rusqlite = { version = "*", features = ["bundled"] }
