[package]
name = "webfetch"
version = "0.1.0"
edition = "2021"
publish = false

[dependencies]
scraper = "=0.27.0"
reqwest = { version = "=0.13.5", default-features = false, features = ["cookies", "form"] }
tokio = { version = "*", features = ["rt-multi-thread", "macros", "time", "sync", "fs", "io-util"] }
anyhow = "*"
serde = { version = "*", features = ["derive"] }
serde_yaml = "*"
cookie = "=0.18.2"
cookie_store = "=0.22.1"
bytes = "*"
async-trait = "*"
async-recursion = "*"
