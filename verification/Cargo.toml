[package]
name = "quackey"
version = "0.1.0"
edition = "2021"
publish = false

[dependencies]
totp-rs = "5"
chrono = "0.4"
colored = "*"
dialoguer = "*"
indicatif = "*"
prettytable-rs = "*"
term_size = "*"
arboard = "*"

[dev-dependencies]
serde_json = "1"
