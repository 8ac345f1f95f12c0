[package]
name = "mini_zinc"
version = "0.1.0"
edition = "2021"
publish = false

[dependencies]
anyhow = "1"
byteorder = "1"
half = "2"
ndarray = "0.16"
nom = "8"
ocl = "0.19"
serde = { version = "1", features = ["derive"] }
tokio = { version = "1", features = ["full"] }
warp = { version = "0.3", default-features = false }
zip = { version = "2", default-features = false, features = ["deflate"] }

[dev-dependencies]
approx = "0.5"
