[package]
name = "excel_network"
version = "0.1.0"
edition = "2021"
publish = false

[dependencies]
uuid = { version = "1", features = ["v4", "serde"] }
itertools = "*"
serde = { version = "1", features = ["derive"] }
serde_json = "1"
ciborium = "0.2"
chrono = { version = "0.4", features = ["serde"] }
dirs = "*"
dotenv = "0.15"
rust_xlsxwriter = "*"
