[package]
name = "keybuddy"
version = "0.1.0"
edition = "2021"
publish = false

[dependencies]
anyhow = "*"
byteorder = "*"
clap = { version = "*", features = ["derive"] }
quoted-string = "*"
regex = "*"
shlex = "*"
tokio = { version = "*", features = ["full"] }
