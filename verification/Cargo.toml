[package]
name = "rsscript_compiler"
version = "0.1.0"
edition = "2021"
publish = false

[dependencies]
sha2 = "=0.10.9"
toml = "0.8"
