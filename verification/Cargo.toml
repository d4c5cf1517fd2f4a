[package]
name = "audio_features"
version = "0.1.0"
edition = "2021"
publish = false

[dependencies]
rodio = { version = "0.21", default-features = false, features = ["flac", "mp3", "vorbis", "wav"] }
rustfft = "=6.4.1"
wasm-bindgen = "=0.2.129"
console_error_panic_hook = "=0.1.7"
