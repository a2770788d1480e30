[package]
name = "ghgrab"
version = "0.1.0"
edition = "2021"
publish = false

[dependencies]
url = "2"
regex = "1"
anyhow = "1"
clap = { version = "4", features = ["derive"] }
dirs = "*"
flate2 = "1"
tar = "*"
xz2 = "*"
zip = { version = "*", default-features = false, features = ["deflate"] }
serde = { version = "1", features = ["derive"] }
serde_json = "1"
thiserror = "*"
tokio = { version = "1", features = ["macros", "rt-multi-thread"] }
ratatui = "*"
syntect = { version = "5", default-features = false, features = ["default-fancy"] }
