[package]
name = "task_group"
version = "0.1.0"
edition = "2021"
publish = false

[dependencies]
critical-section = { version = "=1.2.0", features = ["std"] }
pin-project-lite = "=0.2.17"
tokio = { version = "=1.54.1", default-features = false, features = ["rt", "rt-multi-thread", "sync", "time"] }
