[package]
name = "simd_vol"
version = "0.1.0"
edition = "2021"
publish = false

[dependencies]
bytemuck = "1"
rayon = "1"
serde = { version = "1", features = ["derive"] }
serde_json = "1"
wasm-bindgen = "0.2"
wide = "0.7"
