[package]
name = "mal"
version = "0.1.0"
edition = "2021"
publish = false

[dependencies]
anyhow = "=1.0.104"
fnv = "=1.0.7"
rustyline = "=19.0.0"

[dev-dependencies]
regex = "1"
