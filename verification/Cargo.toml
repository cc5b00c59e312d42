[package]
name = "midi_stream"
version = "0.1.0"
edition = "2021"
publish = false

[dependencies]
wmidi = "4"
tokio-util = { version = "0.7", features = ["codec"] }
thiserror = "1"

[dev-dependencies]
hex = "0.4"
