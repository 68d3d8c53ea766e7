[package]
name = "alexa_cli"
version = "0.2.0"
edition = "2021"
publish = false

[dependencies]
serde_json = "1"
blake3 = "1"
urlencoding = "2"
anyhow = "1"
clap = { version = "4", features = ["derive"] }
serde = { version = "1", features = ["derive"] }
uuid = { version = "1", features = ["v4"] }
dirs = "5"
hound = "3.5"
rubato = "0.15"
symphonia = { version = "0.5", features = ["mp3"] }
reqwest = { version = "0.12", default-features = false, features = ["rustls-tls", "json", "blocking", "cookies"] }
tiny_http = "0.12"
webbrowser = "1"
tokio = { version = "1", features = ["full"] }
whisper-rs = "*"
sherpa-onnx = "*"
