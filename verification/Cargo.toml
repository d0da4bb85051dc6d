[package]
name = "coo"
version = "0.1.0"
edition = "2021"
publish = false

[dependencies]
shellexpand = "2"
chrono = "0.4"
toml = "0.5"
gtk = "0.15"
gdk = "0.15"
gio = "0.15"
glib = "0.15"
async-std = "1"
uuid = { version = "0.8", features = ["v4"] }
log = "0.4"
env_logger = "0.9"
once_cell = "1"
