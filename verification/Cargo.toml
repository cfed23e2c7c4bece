[package]
name = "pyannote-rs"
version = "0.1.0"
edition = "2021"
publish = false

[dependencies]
eyre = "=0.6.14"
hound = "=3.5.1"
ndarray = "=0.17.2"
ndarray-npy = "0.10"
ort = { version = "=2.0.0-rc.15", default-features = false, features = ["ndarray", "load-dynamic"] }
