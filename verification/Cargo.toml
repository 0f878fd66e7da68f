[package]
name = "investment_adjuster"
version = "0.1.0"
edition = "2021"
publish = false

[dependencies]
anyhow = "*"
clap = { version = "*", features = ["derive"] }
csv = "*"
directories = "*"
serde = { version = "*", features = ["derive"] }
serde_yaml = "*"
tabled = "*"
