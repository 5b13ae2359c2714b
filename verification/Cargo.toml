[package]
name = "unitconvert"
version = "0.1.0"
edition = "2021"
publish = false

[dependencies]
clap = { version = "=4.6.7", features = ["derive"] }
console = "=0.16.6"
dialoguer = { version = "=0.12.0", features = ["history"] }
log = "=0.4.34"
toml = "=1.1.6"
