[package]
name = "movie_nexus"
version = "0.1.0"
edition = "2021"
publish = false

[dependencies]
iso8601 = "*"
mime_guess = "*"
percent-encoding = "*"
hyper = { version = "0.14", features = ["full"] }
tokio = { version = "1", features = ["full"] }
tokio-util = { version = "*", features = ["codec"] }
futures = "*"
serde = { version = "*", features = ["derive"] }
serde_json = "*"
toml = "*"
