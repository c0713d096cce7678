[package]
name = "pipewire-vircam"
version = "0.7.0"
edition = "2021"
publish = false

[dependencies]
libspa = "=0.10.1"
pipewire = { version = "=0.10.1", features = ["v0_3_34"] }
