[package]
name = "music_db"
version = "0.1.0"
edition = "2021"
publish = false
rust-version = "1.95"

[dependencies]
rusqlite = { version = "=0.41.1", features = ["bundled"] }
dirs = "=7.0.0"
id3 = "=1.17.2"
walkdir = "=2.5.0"
chrono = "=0.4.45"
gtk4 = "=0.10.3"
gstreamer = "=0.24.5"
gstreamer-player = "=0.24.5"
# Not called directly: gstreamer 0.24 depends on kstring 2, and the releases
# after 2.0.2 need a newer compiler than the rust-version above.
kstring = "=2.0.2"
