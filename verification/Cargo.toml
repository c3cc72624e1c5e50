[package]
name = "bandstat"
version = "0.1.0"
edition = "2021"
publish = false

[dependencies]
charming = "*"
clap = { version = "*", features = ["derive"] }
colored = "*"
rubato = "*"
rustfft = "*"
symphonia = "*"
