[package]
name = "voxel_terrain"
version = "0.1.0"
edition = "2021"
publish = false

[dependencies]
ndarray = "=0.17.2"
dashmap = "=6.2.1"
simdnoise = "=3.1.6"
serde = { version = "=1.0.229", features = ["derive"] }
amethyst = { version = "0.15.3", default-features = false, features = ["renderer", "audio", "vulkan"] }
