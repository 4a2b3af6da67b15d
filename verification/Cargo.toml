[package]
name = "tcge"
version = "0.1.0"
edition = "2021"
publish = false

[dependencies]
rustc-hash = "1"
toml = "0.5"
mopa = "0.2"
cgmath = "0.17"
clap = "2"
rand = "0.7"
fuss = "*"
log = "0.4"
simplelog = "0.5"
failure = "0.1"
gl = "0.14"
glfw = { version = "0.41", default-features = false }
image = { version = "0.23", default-features = false, features = ["png"] }
