[package]
name = "release_engine"
version = "0.1.0"
edition = "2021"
publish = false

[dependencies]
anyhow = "1"
camino = "1"
tracing = "0.1"
