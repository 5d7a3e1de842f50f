[package]
name = "gents"
version = "0.1.0"
edition = "2021"
publish = false

[dependencies]
proc-macro2 = "1"
quote = "1"
serde = { version = "1", features = ["derive"] }
serde_with = "3"
syn = { version = "2", features = ["full"] }
