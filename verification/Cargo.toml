[package]
name = "timeline"
version = "0.1.0"
edition = "2021"
publish = false

[dependencies]
bytemuck = "=1.25.2"
wgpu = "=26.0.1"
winit = "=0.30.13"
wasm-bindgen = "=0.2.129"
js-sys = "=0.3.106"
plinth-core = "=0.1.2"
plinth-util = "=0.1.1"
mosaic-model = "=0.1.1"
