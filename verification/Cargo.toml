[package]
name = "simple_tunnel"
version = "0.1.0"
edition = "2021"
publish = false

[dependencies]
base64 = "*"
rand = "*"
libc = "*"
tun = "*"
rustls = "*"
rustls-pemfile = "*"
tungstenite = "*"
