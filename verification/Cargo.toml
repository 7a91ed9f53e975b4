[package]
name = "tracelogs"
version = "0.1.0"
edition = "2021"
publish = false

[dependencies]
regex = "1"
chrono = "0.4"
strfmt = "0.2"
termion = "*"
serde = { version = "1", features = ["derive"] }
serde_json = "1"
openssh = "*"
tokio = { version = "1", features = ["full"] }
log = "0.4"
