[package]
name = "aurora_media"
version = "0.1.0"
edition = "2021"
publish = false

[dependencies]
gtk4 = { version = "*", features = ["v4_12"] }
libadwaita = { version = "*", features = ["v1_5"] }
gdk4 = "*"
gio = "*"
glib = "*"
libmpv = "*"
libmpv-sys = "*"
libc = "*"
zbus = "*"
tokio = { version = "*", features = ["rt", "sync"] }
serde = { version = "*", features = ["derive"] }
serde_json = "*"
dirs = "*"
anyhow = "*"
log = "*"
env_logger = "*"
