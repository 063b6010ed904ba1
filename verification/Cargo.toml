[package]
name = "inventory_gateway"
version = "0.1.0"
edition = "2021"
publish = false

[dependencies]
rust-fuzzy-search = "*"
serde = { version = "*", features = ["derive"] }
serde_json = "*"
reqwest = { version = "*", default-features = false, features = ["json"] }
tokio = { version = "*", features = ["macros", "rt-multi-thread"] }
futures = "*"
chrono = { version = "*", features = ["serde"] }
bigdecimal = { version = "*", features = ["serde"] }
anyhow = "*"
asciimath = "*"
