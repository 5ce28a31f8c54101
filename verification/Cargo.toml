[package]
name = "speedrun_records"
version = "0.1.0"
edition = "2021"
publish = false

[dependencies]
itertools = "=0.15.0"
serde = "=1.0.229"
serde_derive = "=1.0.229"
serde_json = "=1.0.151"
chrono = { version = "=0.4.45", features = ["serde"] }
bitbar = "=0.10.1"
notify-rust = "=4.18.2"
css-color-parser = "=0.1.2"
derive_more = { version = "=2.1.1", features = ["from"] }
url = "=2.5.8"
xdg-basedir = "=1.0.0"
