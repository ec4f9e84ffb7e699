[package]
name = "git_scroll"
version = "0.1.0"
edition = "2021"
publish = false

[dependencies]
regex = "1"
chrono = { version = "0.4", default-features = false, features = ["std"] }
git2 = { version = "*", default-features = false }
eframe = { version = "0.31", default-features = false, features = ["glow", "default_fonts", "x11"] }
rayon = "1"
tempfile = "3"
