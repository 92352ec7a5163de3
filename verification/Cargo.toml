[package]
name = "lp_compiler"
version = "0.1.0"
edition = "2021"
publish = false

[dependencies]
clap = { version = "*", features = ["derive"] }
serde = "*"
serde_derive = "*"
serde_json = "*"
good_lp = { version = "*", default-features = false, features = ["microlp"] }
