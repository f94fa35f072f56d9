[package]
name = "bevy_easy_compute"
version = "0.1.0"
edition = "2021"
publish = false

[dependencies]
bytemuck = "1"
naga = "0.20"
naga_oil = "0.14"
parking_lot = "0.12"
wgpu = { version = "0.20", default-features = false, features = ["naga-ir", "wgsl"] }
