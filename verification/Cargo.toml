[package]
name = "robo_pass"
version = "0.1.0"
edition = "2021"
publish = false

[dependencies]
aes = "0.8"
aes-gcm = "0.10"
arboard = "3"
chrono = "0.4"
ctr = "0.9"
fern = "0.6"
log = "0.4"
once_cell = "1"
pbkdf2 = "0.12"
rand = "0.8"
serde = { version = "1", features = ["derive"] }
sha2 = "0.10"
uuid = { version = "1", features = ["v4"] }
