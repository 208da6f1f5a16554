[package]
name = "tiny_skia"
version = "0.1.0"
edition = "2021"
publish = false

[dependencies]
bytemuck = "=1.25.2"
log = "=0.4.35"
png = "=0.18.1"
tiny-skia-path = "=0.12.0"
