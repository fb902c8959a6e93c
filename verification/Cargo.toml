[package]
name = "ping"
version = "0.1.0"
edition = "2021"
publish = false

[dependencies]
mio = { version = "0.8", features = ["os-poll", "os-ext"] }
socket2 = { version = "0.5", features = ["all"] }
tokio = { version = "1", features = ["macros", "net", "rt-multi-thread", "time"] }
