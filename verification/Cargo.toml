[package]
name = "speedtest_rs"
version = "0.1.0"
edition = "2021"
publish = false

[dependencies]
md5 = "*"
url = "*"
reqwest = { version = "*", default-features = false, features = ["blocking"] }
rayon = "*"
clap = { version = "*", features = ["derive"] }
chrono = "*"
csv = "*"
serde = { version = "*", features = ["derive"] }
tracing = "*"
tracing-subscriber = { version = "*", features = ["env-filter", "fmt"] }
