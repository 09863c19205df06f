[package]
name = "figma_extract"
version = "0.1.0"
edition = "2021"
publish = false

[dependencies]
regex = "1"
zeroize = "1"
serde = { version = "1", features = ["derive"] }
serde_json = "1"
clap = { version = "4", features = ["derive"] }
tokio = { version = "1", features = ["rt-multi-thread", "macros", "time"] }
reqwest = { version = "0.12", default-features = false, features = ["json"] }
chrono = { version = "0.4", features = ["serde"] }
toml = "0.8"
dirs = "5"
