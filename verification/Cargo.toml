[package]
name = "color_roles"
version = "0.1.0"
edition = "2021"
publish = false

[dependencies]
contrast = "=0.1.1"
env_logger = "=0.4.3"
err-derive = "0.3"
rgb = "=0.8.53"
serenity = "=0.8.9"

[dev-dependencies]
regex = "=1.13.1"
