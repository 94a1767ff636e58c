[package]
name = "piqel"
version = "0.1.0"
edition = "2021"
publish = false

[dependencies]
regex = "=1.13.1"
itertools = "=0.15.0"
anyhow = "=1.0.104"
structopt = "=0.3.26"
serde = { version = "=1.0.229", features = ["derive"] }
serde_json = "=1.0.154"
serde_yaml = "=0.9.34"
toml = "=1.2.1"
quick-xml = { version = "=0.42.0", features = ["serialize"] }
indexmap = { version = "=2.14.2", features = ["serde"] }
