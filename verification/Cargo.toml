[package]
name = "plotcore"
version = "0.1.0"
edition = "2021"
publish = false

[dependencies]
tiny-skia = "=0.11.4"
fontdue = "=0.9.5"
pyo3 = "=0.22.6"
png = "=0.17.16"
