[package]
name = "geode_installer"
version = "0.1.0"
edition = "2021"
publish = false

[dependencies]
colored = "*"
homedir = "*"
indicatif = "*"
reqwest = { version = "0.12", default-features = false, features = ["blocking", "rustls-tls"] }
serde_json = "1"
thiserror = "1"
zip = { version = "2", default-features = false, features = ["deflate"] }
