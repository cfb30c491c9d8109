[package]
name = "boop"
version = "0.1.0"
edition = "2021"
publish = false

[dependencies]
anyhow = "1"
arc-swap = "1"
clap = { version = "4", features = ["derive"] }
fd-lock = "4"
notify = "*"
reqwest = { version = "0.12", default-features = false, features = ["blocking", "json", "rustls-tls"] }
rust-embed = "8"
semver = "1"
serde = { version = "1", features = ["derive"] }
toml = "0.8"
winapi = { version = "0.3", features = ["winuser", "jobapi2", "handleapi", "winnt", "libloaderapi", "minwindef", "windef"] }
