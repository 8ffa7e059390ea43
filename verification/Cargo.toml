[package]
name = "flowtrack"
version = "0.1.0"
edition = "2021"
publish = false

[dependencies]
anyhow = "1"
crossterm = "*"
log = "0.4"
pcap = "*"
pnet_datalink = "*"
