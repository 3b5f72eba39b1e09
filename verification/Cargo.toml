[package]
name = "browser_core"
version = "0.1.0"
edition = "2021"
publish = false

[dependencies]
ab_glyph = "0.2"
rustybuzz = "0.20"
font-kit = "0.14"
socket2 = "0.5"
rustls = { version = "0.23", default-features = false, features = ["ring", "std", "tls12"] }
webpki-roots = "0.26"
winit = { version = "0.29", default-features = false, features = ["x11", "rwh_06"] }
winit_input_helper = "0.16"
