[package]
name = "maven-uploader"
version = "0.1.0"
edition = "2021"
publish = false

[dependencies]
anyhow = "1"
clap = { version = "4", features = ["derive", "env"] }
crossbeam-channel = "0.5"
dashmap = "6"
indicatif = "*"
jwalk = "0.8"
rayon = "1"
redb = "3"
reqwest = { version = "0.12", default-features = false, features = ["blocking", "rustls-tls-manual-roots-no-provider"] }
rustls = { version = "0.23", default-features = false, features = ["std", "tls12"] }
rustls-rustcrypto = "0.0.2-alpha"
serde = { version = "1", features = ["derive"] }
toml = "0.9"
webpki-roots = "*"
