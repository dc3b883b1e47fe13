[package]
name = "trunk_deb"
version = "0.1.0"
edition = "2021"
publish = false

[dependencies]
flate2 = "1"
goblin = "*"
serde = { version = "1", features = ["derive"] }
reqwest = { version = "*", default-features = false, features = ["json", "rustls-tls"] }
tokio = { version = "1", features = ["rt-multi-thread", "macros"] }
argh = "*"

[dev-dependencies]
tar = "*"
ar = "*"
