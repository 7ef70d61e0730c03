[package]
name = "hyperscalees"
version = "0.1.0"
edition = "2021"
publish = false

[dependencies]
burn-flex = { version = "0.21.0", default-features = false, features = ["std"] }
burn-tensor = { version = "0.21.0", default-features = false, features = ["std"] }
flate2 = "1"
regex = "1"
