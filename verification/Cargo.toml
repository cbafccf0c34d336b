[package]
name = "modlist"
version = "0.1.0"
edition = "2021"
publish = false

[dependencies]
bytesize = "*"
dirs = "*"
once_cell = "*"
rfd = "*"
scraper = "*"
serde = { version = "*", features = ["derive"] }
serde_json = "*"
thiserror = "*"
