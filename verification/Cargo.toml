[package]
name = "hassle-rs"
version = "0.12.0"
edition = "2021"
publish = false

[dependencies]
bitflags = "2"
com = { version = "0.6", features = ["production"] }
libc = "0.2"
libloading = "0.8"
thiserror = "1"
widestring = "1"
