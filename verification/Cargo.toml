[package]
name = "fleen"
version = "0.1.0"
edition = "2021"
publish = false

[dependencies]
markdown = "=1.0.0"
toml = "0.8"
tinyrand = "0.5"
axum = "0.8"
tokio = { version = "1", features = ["rt-multi-thread", "macros", "net"] }
tempfile = "3"
thiserror = "2"
eframe = { version = "*", default-features = false, features = ["default_fonts", "glow"] }
egui_ltreeview = "*"
rfd = { version = "*", default-features = false, features = ["xdg-portal", "tokio"] }
clipboard-rs = "*"
