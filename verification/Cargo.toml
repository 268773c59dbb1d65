[package]
name = "zenoh_unicast"
version = "0.1.0"
edition = "2021"
publish = false

[dependencies]
serde_json = "1"
async-std = "1"
async-trait = "0.1"
futures = "0.3"
log = "0.4"
