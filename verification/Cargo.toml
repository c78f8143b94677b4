[package]
name = "rustache"
version = "0.1.0"
edition = "2021"
publish = false

[dependencies]
anyhow = "1"
crossbeam-channel = "0.5"
glob = "0.3"
html-escape = "0.2"
rayon = "1"
serde = { version = "1", features = ["derive"] }
substring = "1"
thiserror = "1"
