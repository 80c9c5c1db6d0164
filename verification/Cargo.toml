[package]
name = "fyre_fractal_function"
version = "0.1.0"
edition = "2021"
publish = false

[dependencies]
clap = { version = "*", features = ["derive"] }
gnuplot = "*"
iterator_ilp = "*"
rayon = "*"
