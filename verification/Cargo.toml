[package]
name = "tree_browser"
version = "0.1.0"
edition = "2021"
publish = false

[dependencies]
ncurses = "5"
serde = { version = "1", features = ["derive"] }
serde_json = "1"
