[package]
name = "evolution"
version = "0.1.0"
edition = "2021"
publish = false

[dependencies]
itertools = "0.13"
macroquad = { version = "0.4", default-features = false }
nalgebra = "0.33"
rand = "0.8"
rand_distr = "0.4"
rand_pcg = "0.3"
serde = { version = "1", features = ["derive"] }
strum = { version = "0.26", features = ["derive"] }
