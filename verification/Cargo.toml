[package]
name = "bingraph"
version = "0.1.0"
edition = "2021"
publish = false

[dependencies]
goblin = "*"
clap = { version = "*", features = ["derive"] }
serde = { version = "*", features = ["derive"] }
serde_json = "*"
rustworkx-core = "*"
