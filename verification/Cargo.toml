[package]
name = "todo_markup"
version = "0.1.0"
edition = "2021"
publish = false

[dependencies]
textwrap = { version = "=0.16.4", features = ["terminal_size"] }
chrono = "=0.4.45"
clap = { version = "=4.6.7", features = ["derive"] }
edit = "=0.1.5"
mlua = { version = "=0.9.9", features = ["lua54", "vendored"] }
serde = { version = "=1.0.229", features = ["derive"] }
serde_json = "=1.0.154"
shellexpand = "=3.1.2"
xdg = "=2.5.2"
