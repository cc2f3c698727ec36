[package]
name = "tasklist"
version = "0.1.0"
edition = "2021"
publish = false

[dependencies]
crossterm = "0.25"
tui = "0.19"

[dev-dependencies]
serde_json = "1"
