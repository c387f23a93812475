[package]
name = "el_terminal"
version = "0.1.0"
edition = "2021"
publish = false

[dependencies]
serde_json = "1"
serde = { version = "1", features = ["derive"] }
ureq = "3"
dirs = "*"
gtk4 = { version = "*", features = ["v4_10"] }
vte4 = "*"
glib = "*"
pango = "*"
gdk4-wayland = "*"
wayland-client = "*"
wayland-backend = { version = "*", features = ["client_system"] }
wayland-protocols = { version = "*", features = ["client", "staging"] }
wayland-protocols-plasma = { version = "*", features = ["client"] }
