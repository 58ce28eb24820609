[package]
name = "cargo_templated_examples"
version = "0.1.0"
edition = "2021"

[dependencies]
cargo_toml = "=1.0.1"
