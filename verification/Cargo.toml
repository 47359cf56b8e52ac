[package]
name = "audioengine"
version = "0.1.0"
edition = "2021"
publish = false

[dependencies]
cpal = "=0.9.0"
