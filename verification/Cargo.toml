[package]
name = "yoruba_ot"
version = "0.1.0"
edition = "2021"
publish = false

[dependencies]
rand = "0.8"
similar = { version = "2", features = ["unicode"] }
unicode-segmentation = "1"
