[package]
name = "lmdb_viewer"
version = "0.1.0"
edition = "2021"
publish = false

[dependencies]
heed = "=0.11.0"
indexmap = "=2.14.2"
anyhow = "=1.0.104"
gtk4 = { version = "=0.7.3", features = ["v4_10"] }
libadwaita = "=0.5.3"
gettext-rs = { version = "=0.7.7", features = ["gettext-system"] }
tracing = "=0.1.44"
tracing-subscriber = "=0.3.23"

[dev-dependencies]
tempfile = "=3.27.0"
