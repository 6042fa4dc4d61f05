[package]
name = "rtasks"
version = "0.1.0"
edition = "2021"
publish = false

[dependencies]
anyhow = "1"
crossterm = "0.27"
directories = "5"
ratatui = { version = "0.23", features = ["macros"] }
serde = { version = "1", features = ["derive"] }
serde_json = "1"
tui-input = "0.8"
