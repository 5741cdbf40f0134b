[package]
name = "pricewatch"
version = "0.1.0"
edition = "2021"
publish = false

[dependencies]
reqwest = { version = "*", default-features = false }
select = "*"
tokio = { version = "*", default-features = false, features = ["rt-multi-thread", "sync", "time"] }
futures = "*"
