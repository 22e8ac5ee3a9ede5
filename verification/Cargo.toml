[package]
name = "startradfr"
version = "0.1.0"
edition = "2021"
publish = false

[dependencies]
chrono = "*"
urlencoding = "*"
serde = { version = "*", features = ["derive"] }
serde_json = "*"
reqwest = { version = "*", default-features = false, features = ["blocking", "json", "rustls-tls"] }
tokio = { version = "*", features = ["rt", "rt-multi-thread", "sync", "time", "macros"] }
axum = "*"
dirs = "*"
walkdir = "*"
zip = { version = "*", default-features = false, features = ["deflate"] }
auto-launch = "*"
discord-rich-presence = "*"
