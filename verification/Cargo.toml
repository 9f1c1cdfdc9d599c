[package]
name = "rustconn"
version = "0.1.0"
edition = "2021"
publish = false

[dependencies]
regex = "=1.13.1"
uuid = { version = "=1.29.0", features = ["v4"] }
secrecy = "=0.10.3"
chrono = "=0.4.45"
tracing = "=0.1.44"
gtk4 = "=0.11.5"
vte4 = "=0.10.0"
libadwaita = "=0.9.2"
glib = "=0.22.10"
resvg = "=0.49.0"
