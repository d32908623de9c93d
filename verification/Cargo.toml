[package]
name = "mwpf_bridge"
version = "0.1.0"
edition = "2021"
publish = false

[dependencies]
mwpf = { version = "=0.2.13", default-features = false, features = ["rational_weight", "embed_visualizer"] }
serde = "=1.0.229"
serde_json = "=1.0.151"
num-traits = "=0.2.19"
napi = "=3.14.2"
napi-derive = "=3.6.12"
