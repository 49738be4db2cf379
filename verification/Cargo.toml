[package]
name = "hexasm"
version = "0.1.0"
edition = "2021"
publish = false

[dependencies]
capstone = "*"
keystone = "*"
fuzzy-matcher = "*"
r2pipe = "*"
serde = { version = "1", features = ["derive"] }
serde_json = "1"
structopt = "0.3"
termion = "1.5"
tui = { version = "0.19", default-features = false, features = ["termion"] }
