[package]
name = "fridge"
version = "0.1.0"
edition = "2021"
publish = false

[dependencies]
bincode = { version = "2", features = ["serde"] }
chrono = "0.4"
clap = { version = "4", features = ["derive"] }
ctrlc = "3"
frida = "0.17"
serde = { version = "1", features = ["derive"] }
serde_json = "1"
thiserror = "2"
