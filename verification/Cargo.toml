[package]
name = "pincel_core"
version = "0.1.0"
edition = "2021"
publish = false

[dependencies]
aseprite-loader = "0.4.2"
thiserror = "2.0.21"
ab_glyph = "0.2.32"
png = "0.18.1"
