[package]
name = "appinfo_vdf"
version = "0.1.0"
edition = "2021"
publish = false

[dependencies]
new-vdf-parser = "*"
serde_json = "*"
