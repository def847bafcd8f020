[package]
name = "padz"
version = "0.1.0"
edition = "2021"
publish = false

[dependencies]
uuid = { version = "1", features = ["v4"] }
chrono = "0.4"
console = "*"
pulldown-cmark = "*"
pulldown-cmark-to-cmark = "*"
serde = { version = "1", features = ["derive"] }
serde_json = "1"
serde_yaml = "*"
flate2 = "1"
tar = "*"
thiserror = "*"
