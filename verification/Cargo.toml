[package]
name = "mcmanage"
version = "0.1.0"
edition = "2021"
publish = false

[dependencies]
actix-web = "*"
argon2 = { version = "*", features = ["std"] }
cookie = "*"
lazy_static = "*"
reqwest = { version = "*", features = ["json", "stream"] }
serde = { version = "*", features = ["derive"] }
serde_json = "*"
tera = "*"
tokio = { version = "*", features = ["full"] }
tokio-stream = "*"
toml = "*"
