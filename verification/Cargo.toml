[package]
name = "infusedb"
version = "0.1.0"
edition = "2021"
publish = false

[dependencies]
uuid = "1"
mio = { version = "1", features = ["os-poll", "net"] }
rustyline = "*"
