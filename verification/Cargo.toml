[package]
name = "book_tools"
version = "0.1.0"
edition = "2021"
publish = false

[dependencies]
html-escape = "=0.2.15"
resvg = "=0.45.1"
syntect = { version = "=5.3.0", default-features = false, features = ["default-fancy"] }
time = { version = "=0.3.55", features = ["formatting"] }
toml = "=0.8.23"
walkdir = "=2.5.0"
zip = { version = "=2.6.1", default-features = false, features = ["deflate"] }

[dev-dependencies]
png = "=0.17.16"
