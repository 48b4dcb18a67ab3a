[package]
name = "writeme"
version = "0.1.0"
edition = "2021"
publish = false

[dependencies]
anyhow = "1"
colored = "*"
dialoguer = "*"
git2 = { version = "*", default-features = false }
itertools = "*"
regex = "1"
serde = { version = "1", features = ["derive"] }
serde_yaml = "0.9"
