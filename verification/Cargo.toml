[package]
name = "crush"
version = "0.1.0"
edition = "2021"
publish = false

[dependencies]
shlex = "1"
serde = { version = "1", features = ["derive"] }
basic-toml = "0.1"
rustyline = "*"
directories = "*"
libc = "0.2"
anyhow = "1"
which = "*"
