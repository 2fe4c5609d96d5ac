[package]
name = "cezanne"
version = "0.1.0"
edition = "2021"
publish = false

[dependencies]
anyhow = "1"
colorgrad = "0.6"
cpal = "0.15"
minifb = "0.27"
rustfft = "6"
