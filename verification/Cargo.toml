[package]
name = "router_core"
version = "0.1.0"
edition = "2021"
publish = false

[dependencies]
futures = "0.1"
hyper = { version = "=0.11.27", default-features = false }
