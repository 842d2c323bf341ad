[package]
name = "mahou"
version = "0.1.0"
edition = "2021"
publish = false

[dependencies]
argh = "*"
dirs = "*"
indicatif = "*"
inquire = "*"
owo-colors = "*"
rand = "*"
reqwest = { version = "*", default-features = false, features = ["blocking", "json", "rustls-tls"] }
serde = { version = "*", features = ["derive"] }
thiserror = "*"
