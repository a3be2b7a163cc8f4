[package]
name = "score_lang"
version = "0.1.0"
edition = "2021"
publish = false

[dependencies]
regex = "1"
wasm-bindgen = "0.2"
web-sys = { version = "0.3", features = ["console", "AudioContext", "AudioDestinationNode", "AudioNode", "AudioParam", "BaseAudioContext", "GainNode", "OscillatorNode", "OscillatorType", "AudioScheduledSourceNode"] }
