[package]
name = "marie_compiler"
version = "0.1.0"
edition = "2021"
publish = false

[dependencies]
anyhow = "1"
clap = { version = "4", features = ["derive"] }
colored = "2"
pest = "2"
pest_derive = "2"
