[package]
name = "mio_echo_client"
version = "0.1.0"
edition = "2021"
publish = false

[dependencies]
mio = { version = "*", features = ["os-poll", "net", "os-ext"] }
