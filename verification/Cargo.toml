[package]
name = "x11-input-supercharger"
version = "0.3.0"
edition = "2021"
publish = false

[dependencies]
x11 = { version = "2.21", features = ["xlib", "xinput"] }
gtk = "0.18"
ctrlc = "3"
serde = "1"
serde_derive = "1"
toml = "0.5"
movie = "0.1"
const-cstr = "*"
lazy-panic = "*"
static_assets = "0.1"
