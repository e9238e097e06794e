[package]
name = "fits_rs"
version = "0.1.0"
edition = "2021"

[dependencies]
bytemuck = "1"
nalgebra = "0.33"
thiserror = "1"
