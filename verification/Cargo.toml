[package]
name = "portfolio_optimizer"
version = "0.1.0"
edition = "2021"
publish = false

[dependencies]
chrono = "0.4"
config = "0.13"
csv = "1"
dotenv = "0.15"
ndarray = "0.15"
ndarray-linalg = "0.16"
plotters = "0.3"
reqwest = { version = "0.11", features = ["json"] }
serde = { version = "1", features = ["derive"] }
serde_json = "1"
tokio = { version = "1", features = ["macros", "rt-multi-thread"] }
