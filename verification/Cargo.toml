[package]
name = "ipc_server"
version = "0.1.0"
edition = "2021"
publish = false

[dependencies]
routing = "<0.5"
safe_core = "<0.5"
