[package]
name = "voxelize"
version = "0.1.0"
edition = "2021"
publish = false

[dependencies]
anyhow = "1"
clap = { version = "4", features = ["derive"] }
dot_vox = "5"
glam = "0.24"
image = { version = "0.24", default-features = false, features = ["png"] }
