[package]
name = "lamberto"
version = "0.1.0"
edition = "2021"
publish = false

[dependencies]
anise = { version = "*", default-features = false }
gooding-lambert = "*"
bytes = "*"
serde = { version = "1", features = ["derive"] }
serde_yaml_ng = "*"
csv = "*"
clap = { version = "4", features = ["derive"] }
