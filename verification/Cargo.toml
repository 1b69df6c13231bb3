[package]
name = "planner"
version = "0.1.0"
edition = "2021"
publish = false

[dependencies]
notify = "4"
serde = { version = "1", features = ["derive"] }
serde_json = "1"
structopt = "0.3"
toml = "0.5"
