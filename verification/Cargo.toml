[package]
name = "samn_common"
version = "0.1.0"
edition = "2021"
publish = false

[dependencies]
embedded-hal = "1"
embedded-nrf24l01 = "*"
nb = "1"
serde = { version = "1", features = ["derive"] }
postcard = "1"
