[package]
name = "reaper"
version = "0.1.0"
edition = "2021"
publish = false

[dependencies]
clap = { version = "=4.6.7", features = ["derive"] }
jsonschema = { version = "=0.60.2", default-features = false }
libc = "=0.2.191"
serde_json = { version = "=1.0.154", features = ["preserve_order"] }
serde_yaml_ng = "=0.10.0"
toml = "=0.8.23"
ureq = "=3.5.1"
