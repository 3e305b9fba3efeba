[package]
name = "semcommit"
version = "0.1.0"
edition = "2021"
publish = false

[dependencies]
clap = { version = "*", features = ["derive"] }
console = "*"
dialoguer = { version = "*", features = ["fuzzy-select"] }

[dev-dependencies]
toml = "*"
