[package]
name = "csurename"
version = "0.1.0"
edition = "2021"
publish = false

[dependencies]
Inflector = "0.11"
unicode-normalization = "0.1"
regex = "1"
ignore = "0.4"
log = "0.4"
serde = { version = "1", features = ["derive"] }
toml = "*"
clap = { version = "4", features = ["derive"] }
