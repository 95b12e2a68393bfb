[package]
name = "cmux"
version = "0.1.0"
edition = "2021"
publish = false

[dependencies]
vte = "=0.15.0"
unicode-width = "=0.2.3"
serde = { version = "1", features = ["derive"] }
serde_json = "1"
thiserror = "2"
portable-pty = "=0.9.0"
tokio = { version = "1", default-features = false, features = ["time"] }
dioxus = { version = "=0.6.3", default-features = false, features = ["html", "macro", "hooks", "signals"] }
