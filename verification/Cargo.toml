[package]
name = "shitty_vm"
version = "0.1.0"
edition = "2021"
publish = false

[dependencies]
anyhow = "=1.0.104"
ciborium = "=0.2.2"
indexmap = "=2.14.2"
pico-args = "=0.5.0"
serde = { version = "=1.0.229", features = ["derive"] }
tinyjson = "=2.5.1"
