[package]
name = "toolchain_image"
version = "0.1.0"
edition = "2021"
publish = false

[dependencies]
envoy = "*"
semver = "*"
