[package]
name = "audio_player"
version = "0.1.0"
edition = "2021"
publish = false

[dependencies]
chrono = { version = "=0.4.45", default-features = false, features = ["clock"] }
crossterm = "=0.28.1"
ratatui = "=0.29.0"
rodio = { version = "=0.20.1", default-features = false, features = ["mp3"] }
tinyrand = "=0.5.0"
ureq = "=2.12.1"
url = "2"
