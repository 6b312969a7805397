[package]
name = "littlefs2_pack"
version = "0.1.0"
edition = "2021"
publish = false

[dependencies]
ignore = "*"
littlefs2-sys = "*"
anyhow = "*"
clap = { version = "*", features = ["derive"] }
serde = { version = "*", features = ["derive"] }
thiserror = "*"
toml = "*"
