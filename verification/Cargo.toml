[package]
name = "teamwork_launcher"
version = "0.1.0"
edition = "2021"
publish = false

[dependencies]
iso_country = "=0.1.4"
itertools = "=0.10.5"
serde = { version = "=1.0.229", features = ["derive"] }
serde_json = "=1.0.154"
platform-dirs = "=0.3.0"
steamlocate = "=1.2.1"
tempdir = "=0.3.7"
reqwest = { version = "=0.11.27", default-features = false }
open = "3"
