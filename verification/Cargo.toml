[package]
name = "simpledb_rs"
version = "0.1.0"
edition = "2021"
publish = false

[dependencies]
anyhow = "=1.0.104"
colored = "=2.2.0"
thiserror = "=1.0.69"
rustyline = "14"
