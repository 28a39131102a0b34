[package]
name = "bevy_serial"
version = "0.5.0"
edition = "2021"
publish = false

[dependencies]
bevy = { version = "=0.13.2", default-features = false }
mio = { version = "=1.2.4", features = ["os-poll", "os-ext"] }
mio-serial = { version = "=5.0.7", default-features = false }
serialport = { version = "=4.10.1", default-features = false }
