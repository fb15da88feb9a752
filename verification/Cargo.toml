[package]
name = "genpacket"
version = "0.1.0"
edition = "2021"
publish = false

[dependencies]
ahash = "0.8"
anyhow = "1"
clap = { version = "3", features = ["derive"] }
ctrlc = "3"
etherparse = "0.13"
indexmap = "1"
pcap = "0.9"
pcap-file = "1.1"
