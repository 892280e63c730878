[package]
name = "autocommit"
version = "0.1.0"
edition = "2021"
publish = false

[dependencies]
futures = "0.1"
parking_lot = "0.9"
tokio = "0.1"
tracing = "0.1"
