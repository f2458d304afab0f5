[package]
name = "bibiocr"
version = "0.1.0"
edition = "2021"
publish = false

[dependencies]
zip = { version = "=9.2.2", default-features = false }
pulldown-cmark = { version = "=0.13.6", default-features = false }
htmd = "=0.5.6"
toml = "=1.1.8"
serde = { version = "=1.0.229", features = ["derive"] }
serde_json = "=1.0.154"
ureq = "=3.5.1"
sys-locale = "=0.3.2"
wsola = "=0.3.0"
voice-g2p = "=0.2.2"
ort = "=2.0.0-rc.15"
sherpa-onnx = "=1.12.40"
image = { version = "=0.25.10", default-features = false, features = ["png", "jpeg"] }
llama-cpp-2 = "=0.1.160"
encoding_rs = "=0.8.44"
rust-i18n = "3"
