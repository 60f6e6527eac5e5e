[package]
name = "rbob"
version = "0.1.0"
edition = "2021"
publish = false

[dependencies]
anyhow = "1"
camino = "1"
clap = { version = "4", features = ["derive"] }
hdf5 = "*"
itertools = "*"
regex = "1"
serde = { version = "1", features = ["derive"] }
serde_yaml = "*"
xdg = "*"
