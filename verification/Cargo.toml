[package]
name = "asyncs"
version = "0.1.0"
edition = "2021"
publish = false

[dependencies]
async-select = "=0.3.0"
proc-macro2 = "=1.0.107"
quote = "=1.0.47"
spawns = { version = "=0.2.6", features = ["executor"] }
spawns-core = "=1.1.2"
syn = { version = "=2.0.119", features = ["full"] }
