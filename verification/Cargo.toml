[package]
name = "pickledb"
version = "0.1.0"
edition = "2021"
publish = false

[dependencies]
serde = "1.0"
serde_json = "1.0"
bincode = "1.3"
serde_yaml = "0.8"
serde_cbor = "0.11"
