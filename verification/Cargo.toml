[package]
name = "hordegrid"
version = "0.1.0"
edition = "2021"
publish = false

[dependencies]
xxhash-rust = { version = "0.8", features = ["xxh3"] }
ggrs = "*"
postcard = { version = "1", features = ["alloc"] }
serde = { version = "1", features = ["derive"] }
thiserror = "*"
wasm-bindgen = "*"
bytemuck = { version = "1", features = ["derive"] }
