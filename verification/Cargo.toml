[package]
name = "scribble"
version = "0.1.0"
edition = "2021"
publish = false

[dependencies]
anyhow = "*"
clap = { version = "*", features = ["derive"] }
hound = "*"
num_cpus = "*"
rubato = "*"
serde_json = "*"
symphonia = "*"
whisper-rs = "*"
