[package]
name = "v8cli"
version = "0.1.0"
edition = "2021"
publish = false

[dependencies]
adblock = "*"
scraper = "*"
ego-tree = "*"
url = "2"
serde_json = "1"
cookie-scoop = "*"
clap = { version = "4", features = ["derive"] }
tokio = { version = "1", features = ["macros", "rt", "time", "sync"] }
obscura = "*"
