[package]
name = "bounds"
version = "0.1.0"
edition = "2021"
publish = false

[dependencies]
anyhow = "1"
clap = { version = "4", features = ["derive"] }
cliclack = "*"
jiff = "0.2"
serde = { version = "1", features = ["derive"] }
ureq = { version = "3", features = ["json"] }
