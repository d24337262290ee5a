[package]
name = "tsdb"
version = "0.1.0"
edition = "2021"
publish = false

[dependencies]
crc = "3"
unsigned-varint = "0.7"
clap = { version = "3", features = ["derive"] }
memmap = "0.7"
serde = { version = "1", features = ["derive"] }
serde_json = "1"
