[package]
name = "sleep_fade"
version = "0.1.0"
edition = "2021"
publish = false

[dependencies]
anyhow = "=1.0.104"
clap = { version = "=4.6.7", features = ["derive"] }
duration-str = "=0.21.0"
gstreamer = "=0.25.4"
gstreamer-play = "=0.25.0"
kstring = "=2.0.2"
system_shutdown = "=4.1.0"
