[package]
name = "p2pmessage"
version = "0.1.0"
edition = "2021"
publish = false

[dependencies]
hdk = "=0.2.8"
rmp = "=0.8.10"
serde = { version = "=1.0.166", features = ["derive"] }
