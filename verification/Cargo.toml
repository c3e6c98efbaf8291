[package]
name = "oxidoc"
version = "0.1.0"
edition = "2021"
publish = false

[dependencies]
chrono = "*"
scraper = "*"
pdf-extract = "*"

[dev-dependencies]
serde_json = "*"
