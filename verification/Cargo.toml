[package]
name = "m_calc"
version = "0.1.0"
edition = "2021"
publish = false

[dependencies]
rand = "0.8"
chrono = "0.4"
console = "0.14"
dialoguer = "0.8"
indicatif = "0.15"
prettytable-rs = "0.8"
serde = { version = "1", features = ["derive"] }
serde_json = "1"
