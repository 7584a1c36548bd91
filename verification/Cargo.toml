[package]
name = "splynters"
version = "0.1.0"
edition = "2021"
publish = false

[dependencies]
splinter-rs = "=0.12.2"
# held back for splinter-rs: u24 0.6.1 builds on a range-set-blaze that 0.12.2 does not use
u24 = "=0.6.0"
rayon = "=1.12.0"
pyo3 = "=0.30.1"
