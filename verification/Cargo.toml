[package]
name = "scp_reader"
version = "0.1.0"
edition = "2021"
publish = false

[dependencies]
anyhow = "1"
crossterm = "0.28"
directories = "5"
ego-tree = "*"
rand = "0.8"
ratatui = "0.29"
regex = "1"
reqwest = { version = "0.12", features = ["blocking"] }
scraper = "*"
textwrap = "0.16"
