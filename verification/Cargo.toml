[package]
name = "mtd"
version = "0.1.0"
edition = "2021"
publish = false

[dependencies]
chrono = "*"
clap = { version = "*", features = ["derive"] }
dirs = "*"
rand = "*"
rpassword = "*"
serde = { version = "*", features = ["derive"] }
serde_json = "*"
aes-gcm = "*"
sha2 = "*"
