[package]
name = "beframe"
version = "0.1.0"
edition = "2021"
publish = false

[dependencies]
md-5 = "=0.10.6"
rayon = "1"
image = { version = "0.25", default-features = false, features = ["png", "jpeg"] }
clap = { version = "4", features = ["derive"] }
tokio = { version = "1", features = ["fs", "io-util", "rt"] }
polars = { version = "*", default-features = false, features = ["lazy", "parquet"] }
arrow = { version = "*", default-features = false, features = ["prettyprint"] }
parquet = { version = "*", default-features = false, features = ["arrow"] }
