[package]
name = "csvrates"
version = "0.1.0"
edition = "2021"
publish = false

[dependencies]
serde_json = "*"
ryu = "*"

[dev-dependencies]
csv = "*"
