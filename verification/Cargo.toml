[package]
name = "warmer"
version = "0.1.2"
edition = "2021"
publish = false

[dependencies]
clap = { version = "4", features = ["derive"] }
colored = "2"
ctrlc = "3"
headless_chrome = "1"
isahc = "1"
num_cpus = "1"
rand = "0.9"
scraper = "*"
serde = { version = "1", features = ["derive"] }
serde_json = "1"
serde-xml-rs = "*"
tokio = { version = "1", features = ["macros", "rt-multi-thread", "time"] }
url = "2"
