[package]
name = "profile_evaluator"
version = "0.1.0"
edition = "2021"
publish = false

[dependencies]
serde = { version = "1", features = ["derive"] }
serde_json = "1"
serde_yaml = "0.9"
handlebars = "6"
regex = "1"
thiserror = "2"
clap = { version = "4", features = ["derive"] }
