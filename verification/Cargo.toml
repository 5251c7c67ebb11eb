[package]
name = "rust_craft"
version = "0.1.0"
edition = "2021"
publish = false

[dependencies]
nalgebra = "0.32"
async-std = "1"
bytemuck = { version = "1", features = ["derive"] }
