[package]
name = "ktx2_cubemap"
version = "0.1.0"
edition = "2021"
publish = false

[dependencies]
zstd = "*"

[dev-dependencies]
ktx2 = "*"
half = "*"
