[package]
name = "audio_output_switcher"
version = "0.1.0"
edition = "2021"
publish = false

[dependencies]
anyhow = "1"
clap = { version = "4", features = ["derive"] }
exitcode = "1"
serde = { version = "1", features = ["derive"] }
serde_json = "1"
which = "*"
xdg = "2"
