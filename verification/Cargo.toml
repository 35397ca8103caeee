[package]
name = "vibox"
version = "0.1.0"
edition = "2021"
publish = false

[dependencies]
anyhow = "=1.0.104"
clap = { version = "=4.6.7", features = ["derive"] }
dirs = "=7.0.0"
lofty = "=0.25.5"
pulseaudio = "=0.3.2"
ratatui = "=0.29.0"
rayon = "=1.12.0"
rodio = { version = "=0.23.0", default-features = false, features = ["flac", "mp3", "mp4", "vorbis", "wav"] }
serde_json = "=1.0.154"
unicode-width = "=0.2.0"
ureq = "=3.5.1"
walkdir = "=2.5.0"
zbus = "=5.19.0"
