[package]
name = "quizcore"
version = "0.1.0"
edition = "2021"
publish = false

[dependencies]
rand = "0.8"
pulldown-cmark = "*"
crossterm = "*"
serde = { version = "*", features = ["derive"] }
serde_json = "*"
syntect = { version = "*", default-features = false, features = ["default-fancy"] }
