[package]
name = "judge_core"
version = "0.1.0"
edition = "2021"
publish = false

[dependencies]
chrono = "*"
serde = { version = "*", features = ["derive"] }
serde_json = "*"
actix-web = "*"
tokio = { version = "*", features = ["rt-multi-thread", "macros", "sync"] }
