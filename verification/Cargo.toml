[package]
name = "layer_cache"
version = "0.1.0"
edition = "2021"
publish = false

[dependencies]
flate2 = "=1.1.10"
tar = "=0.4.46"
custom_logger = "=0.1.0"
chrono = "=0.4.45"
