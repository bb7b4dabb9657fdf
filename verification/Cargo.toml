[package]
name = "gnome_lng_switcher"
version = "0.1.0"
edition = "2021"
publish = false

[dependencies]
evdev = "0.12"
serde = { version = "1", features = ["derive"] }
serde_json = "1"
gio = "0.18"
glib = "0.18"
gtk4 = "0.7"
libadwaita = "0.5"
