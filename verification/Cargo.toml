[package]
name = "bathbot"
version = "0.1.0"
edition = "2021"
publish = false

[dependencies]
hashbrown = "*"
rosu-v2 = "*"
tokio = { version = "1", features = ["rt-multi-thread"] }
