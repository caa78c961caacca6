[package]
name = "jtagice_mkii"
version = "0.1.0"
edition = "2021"
publish = false

[dependencies]
byteorder = "=1.5.0"
ramlink = { version = "=0.1.0", features = ["consumer"] }
serialport = { version = "=4.10.1", default-features = false }
