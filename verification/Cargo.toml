[package]
name = "session_search"
version = "0.1.0"
edition = "2021"
publish = false

[dependencies]
serde = { version = "*", features = ["derive"] }
serde_json = "*"
git2 = "*"
notify = "*"
notify-debouncer-mini = "*"
dirs = "*"
