[package]
name = "xos_apps"
version = "0.1.0"
edition = "2021"
publish = false

[dependencies]
serde = { version = "=1.0.229", features = ["derive"] }
toml = "=1.2.1"
zip = { version = "=9.2.2", default-features = false, features = ["deflate"] }
tar = "=0.4.46"
flate2 = "=1.1.10"
gtk4 = "=0.11.5"
glib = "=0.22.10"
gio = "=0.22.10"
libadwaita = { version = "=0.9.2", features = ["v1_4"] }
