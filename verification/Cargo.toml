[package]
name = "cryptocraft"
version = "1.0.0"
edition = "2021"
publish = false

[dependencies]
argon2 = { version = "0.5", features = ["std"] }
crossterm = "0.27"
ctrlc = "3"
hex = "0.4"
if-addrs = "*"
num_cpus = "1"
rand = "0.8"
rayon = "1"
rpassword = "7"
rusqlite = { version = "0.31", features = ["bundled"] }
serde = { version = "1", features = ["derive"] }
serde_json = "1"
sha2 = "0.10"
tiny_http = "0.12"
uuid = { version = "1", features = ["v4"] }
