[package]
name = "frametally"
version = "0.1.0"
edition = "2021"
publish = false

[dependencies]
ffmpeg-next = "*"
indicatif = "*"
num_cpus = "*"
thiserror = "*"
