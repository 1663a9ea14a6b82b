[package]
name = "voxel_tiler_core"
version = "0.1.0"
edition = "2021"
publish = false

[dependencies]
anyhow = "1"
coordinate-transformer = "*"
dashmap = "*"
fxhash = "0.2"
gltf = { version = "1", default-features = false, features = ["names"] }
image = { version = "*", default-features = false, features = ["png", "jpeg"] }
indexmap = "2"
las = "*"
meshopt = "*"
ply-rs = "0.1"
