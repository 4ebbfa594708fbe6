[package]
name = "octopus"
version = "0.1.0"
edition = "2021"
publish = false

[dependencies]
pretty_env_logger = "0.5"
serde = { version = "1", features = ["derive"] }
tokio = { version = "1", features = ["macros", "rt-multi-thread", "sync"] }
warp = "0.3"
