[package]
name = "packetmancer"
version = "0.1.0"
edition = "2021"
publish = false

[dependencies]
etherparse = "*"
serde_json = "*"
pcap = "*"
clap = { version = "*", features = ["derive"] }
