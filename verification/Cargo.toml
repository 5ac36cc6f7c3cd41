[package]
name = "valv"
version = "0.1.0"
edition = "2021"
publish = false

[dependencies]
chacha20 = "*"
pbkdf2 = "*"
sha2 = "*"
rand = "*"
serde = { version = "*", features = ["derive"] }
serde_json = "*"
clap = { version = "*", features = ["derive"] }
rpassword = "*"
libc = "*"
