[package]
name = "pixel_dna"
version = "0.1.0"
edition = "2021"
publish = false

[dependencies]
base64 = "=0.23.1"
sha2 = "=0.11.1"
hex = "=0.4.3"
image = { version = "=0.25.10", default-features = false, features = ["png", "jpeg", "bmp"] }
tonlib-core = "=0.26.11"
num-bigint = "=0.4.8"
serde = { version = "=1.0.229", features = ["derive"] }
serde_json = "=1.0.154"
tokio = { version = "=1.54.1", features = ["full"] }
axum = "=0.8.9"
reqwest = { version = "=0.13.5", default-features = false, features = ["json"] }
rust-s3 = "=0.38.0"
futures = "=0.3.34"
either = "=1.19.0"
anyhow = "=1.0.104"
bytes = "=1.12.1"
envy = "=0.4.2"
tokio-rayon = "=2.1.0"
tower-http = { version = "=0.7.1", features = ["cors"] }
wasm-bindgen = "=0.2.129"
js-sys = "=0.3.106"
num-traits = "=0.2.19"

[dev-dependencies]
bitvec = "=1.1.1"
